//! Verified decimal rendering of the engine's numeric values.
//!
//! Micro-unit values print as fixed-point decimals with six fractional
//! digits, matching their exact value.

use vstd::prelude::*;

verus! {

/// The decimal digit character for a value below ten.
pub open spec fn digit_char(d: int) -> char {
    if d == 0 {
        '0'
    } else if d == 1 {
        '1'
    } else if d == 2 {
        '2'
    } else if d == 3 {
        '3'
    } else if d == 4 {
        '4'
    } else if d == 5 {
        '5'
    } else if d == 6 {
        '6'
    } else if d == 7 {
        '7'
    } else if d == 8 {
        '8'
    } else {
        '9'
    }
}

/// The decimal digit string of a non-negative integer, most significant
/// digit first.
pub open spec fn dec_digits(n: int) -> Seq<char>
    recommends
        n >= 0,
    decreases n,
{
    if n < 10 {
        seq![digit_char(n)]
    } else {
        dec_digits(n / 10).push(digit_char(n % 10))
    }
}

/// The decimal string of a signed integer.
pub open spec fn int_chars(v: int) -> Seq<char> {
    if v < 0 {
        seq!['-'] + dec_digits(-v)
    } else {
        dec_digits(v)
    }
}

/// Six zero-padded decimal digits of a value below one million.
pub open spec fn pad6(f: int) -> Seq<char>
    recommends
        0 <= f < 1_000_000,
{
    seq![
        digit_char(f / 100_000 % 10),
        digit_char(f / 10_000 % 10),
        digit_char(f / 1_000 % 10),
        digit_char(f / 100 % 10),
        digit_char(f / 10 % 10),
        digit_char(f % 10),
    ]
}

/// The fixed-point decimal string of a micro-unit value: an optional
/// sign, the whole part, a point, and six fractional digits.
pub open spec fn micros_chars(v: int) -> Seq<char> {
    let m = if v < 0 {
        -v
    } else {
        v
    };
    let sign: Seq<char> = if v < 0 {
        seq!['-']
    } else {
        Seq::<char>::empty()
    };
    sign + dec_digits(m / 1_000_000) + seq!['.'] + pad6(m % 1_000_000)
}

/// The spelled-out boolean.
pub open spec fn bool_chars(b: bool) -> Seq<char> {
    if b {
        seq!['t', 'r', 'u', 'e']
    } else {
        seq!['f', 'a', 'l', 's', 'e']
    }
}

/// The string of one decimal digit.
pub fn digit_str(d: u64) -> (r: &'static str)
    requires
        d < 10,
    ensures
        r@ == seq![digit_char(d as int)],
{
    proof {
        reveal_strlit("0");
        reveal_strlit("1");
        reveal_strlit("2");
        reveal_strlit("3");
        reveal_strlit("4");
        reveal_strlit("5");
        reveal_strlit("6");
        reveal_strlit("7");
        reveal_strlit("8");
        reveal_strlit("9");
    }
    let r = if d == 0 {
        "0"
    } else if d == 1 {
        "1"
    } else if d == 2 {
        "2"
    } else if d == 3 {
        "3"
    } else if d == 4 {
        "4"
    } else if d == 5 {
        "5"
    } else if d == 6 {
        "6"
    } else if d == 7 {
        "7"
    } else if d == 8 {
        "8"
    } else {
        "9"
    };
    proof {
        assert(r@ =~= seq![digit_char(d as int)]);
    }
    r
}

/// Render an unsigned integer in decimal.
pub fn u64_to_string(n: u64) -> (r: String)
    ensures
        r@ == dec_digits(n as int),
    decreases n,
{
    if n < 10 {
        String::from_str(digit_str(n))
    } else {
        let mut s = u64_to_string(n / 10);
        s.append(digit_str(n % 10));
        proof {
            assert(s@ =~= dec_digits(n as int));
        }
        s
    }
}

/// Render a machine-word count in decimal.
pub fn usize_to_string(n: usize) -> (r: String)
    ensures
        r@ == dec_digits(n as int),
{
    u64_to_string(n as u64)
}

/// Render a signed integer in decimal.
pub fn i64_to_string(v: i64) -> (r: String)
    ensures
        r@ == int_chars(v as int),
{
    proof {
        reveal_strlit("-");
    }
    if v < 0 {
        let m = crate::fixed::abs_u64(v);
        let mut s = String::from_str("-");
        let digits = u64_to_string(m);
        s.append(digits.as_str());
        proof {
            assert(s@ =~= int_chars(v as int));
        }
        s
    } else {
        u64_to_string(v as u64)
    }
}

/// Render a micro-unit value as a fixed-point decimal with six
/// fractional digits.
pub fn micros_to_string(v: i64) -> (r: String)
    ensures
        r@ == micros_chars(v as int),
{
    proof {
        reveal_strlit("-");
        reveal_strlit(".");
    }
    let m = crate::fixed::abs_u64(v);
    let whole: u64 = m / 1_000_000;
    let frac: u64 = m % 1_000_000;
    let mut s = if v < 0 {
        String::from_str("-")
    } else {
        String::new()
    };
    let wdigits = u64_to_string(whole);
    s.append(wdigits.as_str());
    s.append(".");
    s.append(digit_str(frac / 100_000 % 10));
    s.append(digit_str(frac / 10_000 % 10));
    s.append(digit_str(frac / 1_000 % 10));
    s.append(digit_str(frac / 100 % 10));
    s.append(digit_str(frac / 10 % 10));
    s.append(digit_str(frac % 10));
    proof {
        assert(s@ =~= micros_chars(v as int));
    }
    s
}

/// Render a boolean as `true` or `false`.
pub fn bool_to_string(b: bool) -> (r: String)
    ensures
        r@ == bool_chars(b),
{
    proof {
        reveal_strlit("true");
        reveal_strlit("false");
    }
    let r = if b {
        String::from_str("true")
    } else {
        String::from_str("false")
    };
    proof {
        assert(r@ =~= bool_chars(b));
    }
    r
}

} // verus!
