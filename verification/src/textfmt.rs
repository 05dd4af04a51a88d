//! Decimal text for the vector markup and the canonical shape tags.
//!
//! Every number the library prints is an integer or a fixed-point
//! fraction in thousandths, so all formatting reduces to decimal digits
//! of integers, stated exactly as sequences of characters.

use vstd::prelude::*;

verus! {

/// The decimal digit character for `d` in `0 ..= 9`.
pub open spec fn digit_char(d: int) -> char {
    if d == 0 {
        '0'
    } else if d == 1 {
        '1'
    } else if d == 2 {
        '2'
    } else if d == 3 {
        '3'
    } else if d == 4 {
        '4'
    } else if d == 5 {
        '5'
    } else if d == 6 {
        '6'
    } else if d == 7 {
        '7'
    } else if d == 8 {
        '8'
    } else {
        '9'
    }
}

/// The decimal digits of a nonnegative integer, most significant first.
pub open spec fn spec_dec(n: int) -> Seq<char>
    decreases n,
{
    if n < 10 {
        seq![digit_char(n)]
    } else {
        spec_dec(n / 10) + seq![digit_char(n % 10)]
    }
}

/// Three zero-padded decimal digits of `r` in `0 ..= 999`.
pub open spec fn spec_digits3(r: int) -> Seq<char> {
    seq![digit_char(r / 100), digit_char((r / 10) % 10), digit_char(r % 10)]
}

/// A fixed-point coordinate `k` in thousandths, printed with six
/// decimal places: the integer part, a point, the three fractional
/// digits, and three trailing zeros.
pub open spec fn spec_coord6(k: int) -> Seq<char> {
    seq![digit_char(k / 1000), '.'] + spec_digits3(k % 1000) + seq!['0', '0', '0']
}

/// A fixed-point value `k` in thousandths with three decimal places.
pub open spec fn spec_coord3(k: int) -> Seq<char> {
    seq![digit_char(k / 1000), '.'] + spec_digits3(k % 1000)
}

/// An opacity `k` in thousandths with four decimal places.
pub open spec fn spec_opacity4(k: int) -> Seq<char> {
    seq![digit_char(k / 1000), '.'] + spec_digits3(k % 1000) + seq!['0']
}

/// The single-character string for a decimal digit.
pub fn digit_str(d: u8) -> (s: &'static str)
    requires
        d < 10,
    ensures
        s@ == seq![digit_char(d as int)],
{
    proof {
        reveal_strlit("0");
        reveal_strlit("1");
        reveal_strlit("2");
        reveal_strlit("3");
        reveal_strlit("4");
        reveal_strlit("5");
        reveal_strlit("6");
        reveal_strlit("7");
        reveal_strlit("8");
        reveal_strlit("9");
    }
    let s: &'static str = match d {
        0 => "0",
        1 => "1",
        2 => "2",
        3 => "3",
        4 => "4",
        5 => "5",
        6 => "6",
        7 => "7",
        8 => "8",
        _ => "9",
    };
    assert(s@ =~= seq![digit_char(d as int)]);
    s
}

/// The decimal digits of `n`, most significant first.
pub fn u32_dec(n: u32) -> (s: String)
    ensures
        s@ == spec_dec(n as int),
    decreases n,
{
    if n < 10 {
        let s = String::from_str(digit_str(n as u8));
        assert(s@ =~= spec_dec(n as int));
        s
    } else {
        let mut s = u32_dec(n / 10);
        s.append(digit_str((n % 10) as u8));
        assert(s@ =~= spec_dec(n as int));
        s
    }
}

/// Three zero-padded decimal digits of `r`.
pub fn digits3(r: u16) -> (s: String)
    requires
        r <= 999,
    ensures
        s@ == spec_digits3(r as int),
{
    let mut s = String::from_str(digit_str((r / 100) as u8));
    s.append(digit_str(((r / 10) % 10) as u8));
    s.append(digit_str((r % 10) as u8));
    assert(s@ =~= spec_digits3(r as int));
    s
}

/// A thousandths value with six decimal places.
pub fn coord6(k: u16) -> (s: String)
    requires
        k <= 1000,
    ensures
        s@ == spec_coord6(k as int),
{
    proof {
        reveal_strlit(".");
        reveal_strlit("000");
    }
    let mut s = String::from_str(digit_str((k / 1000) as u8));
    s.append(".");
    let frac = digits3(k % 1000);
    s.append(frac.as_str());
    s.append("000");
    assert(s@ =~= spec_coord6(k as int));
    s
}

/// A thousandths value with three decimal places.
pub fn coord3(k: u16) -> (s: String)
    requires
        k <= 1000,
    ensures
        s@ == spec_coord3(k as int),
{
    proof {
        reveal_strlit(".");
    }
    let mut s = String::from_str(digit_str((k / 1000) as u8));
    s.append(".");
    let frac = digits3(k % 1000);
    s.append(frac.as_str());
    assert(s@ =~= spec_coord3(k as int));
    s
}

/// A thousandths opacity with four decimal places.
pub fn opacity4(k: u16) -> (s: String)
    requires
        k <= 1000,
    ensures
        s@ == spec_opacity4(k as int),
{
    proof {
        reveal_strlit(".");
        reveal_strlit("0");
    }
    let mut s = String::from_str(digit_str((k / 1000) as u8));
    s.append(".");
    let frac = digits3(k % 1000);
    s.append(frac.as_str());
    s.append("0");
    assert(s@ =~= spec_opacity4(k as int));
    s
}

} // verus!
