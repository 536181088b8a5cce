//! Decimal text of the numbers that default messages quote.
use vstd::prelude::*;

use crate::value::{Decimal, FRACTION_DIGITS, UNIT};

verus! {

pub open spec fn digit_char(d: nat) -> char {
    if d == 0 {
        '0'
    } else if d == 1 {
        '1'
    } else if d == 2 {
        '2'
    } else if d == 3 {
        '3'
    } else if d == 4 {
        '4'
    } else if d == 5 {
        '5'
    } else if d == 6 {
        '6'
    } else if d == 7 {
        '7'
    } else if d == 8 {
        '8'
    } else {
        '9'
    }
}

/// The decimal digits of `n`, most significant first, with no leading zero.
pub open spec fn nat_text(n: nat) -> Seq<char>
    decreases n,
{
    if n < 10 {
        seq![digit_char(n)]
    } else {
        nat_text(n / 10).push(digit_char(n % 10))
    }
}

/// The last `width` decimal digits of `n`, padded with leading zeros.
pub open spec fn padded_text(n: nat, width: nat) -> Seq<char>
    decreases width,
{
    if width == 0 {
        Seq::empty()
    } else {
        padded_text(n / 10, (width - 1) as nat).push(digit_char(n % 10))
    }
}

/// The digits of the fraction `f / 10^width`, without trailing zeros.
pub open spec fn fraction_text(f: nat, width: nat) -> Seq<char>
    decreases width,
{
    if width > 0 && f != 0 && f % 10 == 0 {
        fraction_text(f / 10, (width - 1) as nat)
    } else {
        padded_text(f, width)
    }
}

pub open spec fn magnitude(x: int) -> nat {
    if x < 0 {
        (-x) as nat
    } else {
        x as nat
    }
}

/// The shortest plain decimal text of `d`: a sign for a negative number, the
/// whole part, and the fraction's significant digits after a point.
pub open spec fn decimal_text(d: Decimal) -> Seq<char> {
    let m = magnitude(d.scaled as int);
    let sign = if d.scaled < 0 {
        seq!['-']
    } else {
        Seq::empty()
    };
    let frac = m % (UNIT as nat);
    sign + nat_text(m / (UNIT as nat)) + if frac == 0 {
        Seq::empty()
    } else {
        seq!['.'] + fraction_text(frac, FRACTION_DIGITS as nat)
    }
}

fn digit_str(d: u128) -> (r: &'static str)
    requires
        d < 10,
    ensures
        r@ == seq![digit_char(d as nat)],
{
    proof {
        reveal_strlit("0");
        reveal_strlit("1");
        reveal_strlit("2");
        reveal_strlit("3");
        reveal_strlit("4");
        reveal_strlit("5");
        reveal_strlit("6");
        reveal_strlit("7");
        reveal_strlit("8");
        reveal_strlit("9");
    }
    if d == 0 {
        "0"
    } else if d == 1 {
        "1"
    } else if d == 2 {
        "2"
    } else if d == 3 {
        "3"
    } else if d == 4 {
        "4"
    } else if d == 5 {
        "5"
    } else if d == 6 {
        "6"
    } else if d == 7 {
        "7"
    } else if d == 8 {
        "8"
    } else {
        "9"
    }
}

/// Appends the decimal digits of `n`.
pub fn write_nat(n: u128, out: &mut String)
    ensures
        final(out)@ == old(out)@ + nat_text(n as nat),
    decreases n,
{
    if n >= 10 {
        write_nat(n / 10, out);
    }
    out.append(digit_str(n % 10));
    proof {
        assert(final(out)@ =~= old(out)@ + nat_text(n as nat));
    }
}

fn write_padded(n: u128, width: u32, out: &mut String)
    ensures
        final(out)@ == old(out)@ + padded_text(n as nat, width as nat),
    decreases width,
{
    if width > 0 {
        write_padded(n / 10, width - 1, out);
        out.append(digit_str(n % 10));
    }
    proof {
        assert(final(out)@ =~= old(out)@ + padded_text(n as nat, width as nat));
    }
}

fn write_fraction(f: u128, width: u32, out: &mut String)
    ensures
        final(out)@ == old(out)@ + fraction_text(f as nat, width as nat),
    decreases width,
{
    if width > 0 && f != 0 && f % 10 == 0 {
        write_fraction(f / 10, width - 1, out);
    } else {
        write_padded(f, width, out);
    }
}

/// The decimal text of a length bound.
pub fn usize_text(n: usize) -> (r: String)
    ensures
        r@ == nat_text(n as nat),
{
    let mut out = String::new();
    write_nat(n as u128, &mut out);
    proof {
        assert(out@ =~= nat_text(n as nat));
    }
    out
}

/// The decimal text of a number bound.
pub fn decimal_to_text(d: Decimal) -> (r: String)
    ensures
        r@ == decimal_text(d),
{
    let m: u128 = if d.scaled < 0 {
        ((-(d.scaled + 1)) as u128) + 1
    } else {
        d.scaled as u128
    };
    let mut out = String::new();
    if d.scaled < 0 {
        proof {
            reveal_strlit("-");
        }
        out.append("-");
    }
    let unit: u128 = UNIT as u128;
    write_nat(m / unit, &mut out);
    let frac: u128 = m % unit;
    if frac != 0 {
        proof {
            reveal_strlit(".");
        }
        out.append(".");
        write_fraction(frac, FRACTION_DIGITS, &mut out);
    }
    proof {
        assert(m as nat == magnitude(d.scaled as int));
        assert(out@ =~= decimal_text(d));
    }
    out
}

} // verus!
