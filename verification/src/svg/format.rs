//! How numbers are written in the markup.
//!
//! A coordinate is written in pixels, as a decimal number with at most three
//! places: `80`, `43.5`, `34.286`. Whole numbers carry no point, and no
//! number ends in a zero behind the point.

use vstd::prelude::*;

use crate::units::UNITS_PER_PX;

verus! {

/// The decimal digit `d`.
pub open spec fn digit_char(d: int) -> char {
    if d == 0 {
        '0'
    } else if d == 1 {
        '1'
    } else if d == 2 {
        '2'
    } else if d == 3 {
        '3'
    } else if d == 4 {
        '4'
    } else if d == 5 {
        '5'
    } else if d == 6 {
        '6'
    } else if d == 7 {
        '7'
    } else if d == 8 {
        '8'
    } else {
        '9'
    }
}

/// `n` in decimal, without leading zeros.
pub open spec fn nat_text(n: nat) -> Seq<char>
    decreases n,
{
    if n < 10 {
        seq![digit_char(n as int)]
    } else {
        nat_text(n / 10).push(digit_char((n % 10) as int))
    }
}

/// The size of `v` in thousandths of a pixel, rounded to the nearest, a half
/// away from zero.
pub open spec fn thousandths(v: int) -> int {
    let magnitude = if v < 0 {
        -v
    } else {
        v
    };
    (magnitude * 1000 + UNITS_PER_PX / 2) / (UNITS_PER_PX as int)
}

/// The digits behind the point for `f` thousandths, `0 < f < 1000`: three
/// digits, without the zeros at their end.
pub open spec fn fraction_text(f: int) -> Seq<char> {
    if f % 100 == 0 {
        seq![digit_char(f / 100)]
    } else if f % 10 == 0 {
        seq![digit_char(f / 100), digit_char((f / 10) % 10)]
    } else {
        seq![digit_char(f / 100), digit_char((f / 10) % 10), digit_char(f % 10)]
    }
}

/// The length or coordinate `v`, given in units, written in pixels.
pub open spec fn coord_text(v: int) -> Seq<char> {
    let t = thousandths(v);
    let sign = if v < 0 && t > 0 {
        seq!['-']
    } else {
        Seq::<char>::empty()
    };
    if t % 1000 == 0 {
        sign + nat_text((t / 1000) as nat)
    } else {
        sign + nat_text((t / 1000) as nat) + seq!['.'] + fraction_text(t % 1000)
    }
}

/// A whole number of pixels is written as that number, with no point.
pub proof fn whole_pixels_have_no_point(n: nat)
    ensures
        coord_text(n * UNITS_PER_PX) == nat_text(n),
{
    let v = n * UNITS_PER_PX;
    assert(thousandths(v) == n * 1000) by {
        assert((n * 140 * 1000 + 70) / 140 == n * 1000);
    }
    assert((n * 1000) % 1000 == 0 && (n * 1000) / 1000 == n);
    assert(Seq::<char>::empty() + nat_text(n) =~= nat_text(n));
}

fn digit(d: u128) -> (c: char)
    requires
        d < 10,
    ensures
        c == digit_char(d as int),
{
    match d {
        0 => '0',
        1 => '1',
        2 => '2',
        3 => '3',
        4 => '4',
        5 => '5',
        6 => '6',
        7 => '7',
        8 => '8',
        _ => '9',
    }
}

/// Writes `n` in decimal at the end of `out`.
pub fn push_nat_wide(out: &mut String, n: u128)
    ensures
        final(out)@ == old(out)@ + nat_text(n as nat),
    decreases n,
{
    if n >= 10 {
        push_nat_wide(out, n / 10);
    }
    let ghost before = out@;
    out.push(digit(n % 10));
    proof {
        if n >= 10 {
            assert(before.push(digit_char((n % 10) as int)) =~= old(out)@ + nat_text(n as nat));
        } else {
            assert(old(out)@.push(digit_char(n as int)) =~= old(out)@ + nat_text(n as nat));
        }
    }
}

/// Writes `n` in decimal at the end of `out`.
pub fn push_nat(out: &mut String, n: u64)
    ensures
        final(out)@ == old(out)@ + nat_text(n as nat),
{
    push_nat_wide(out, n as u128);
}

/// Largest magnitude of a length that `push_coord_wide` writes.
pub const WIDE_LIMIT: i128 = 0x1_0000_0000_0000_0000_0000_0000;

/// Writes the length or coordinate `v` at the end of `out`, in pixels.
pub fn push_coord_wide(out: &mut String, v: i128)
    requires
        -WIDE_LIMIT <= v <= WIDE_LIMIT,
    ensures
        final(out)@ == old(out)@ + coord_text(v as int),
{
    let magnitude: u128 = if v < 0 {
        (-v) as u128
    } else {
        v as u128
    };
    let mut whole: u128 = magnitude / 140;
    let mut frac: u128 = ((magnitude % 140) * 1000 + 70) / 140;
    if frac == 1000 {
        whole = whole + 1;
        frac = 0;
    }
    assert(whole * 1000 + frac == thousandths(v as int));
    assert(frac == thousandths(v as int) % 1000);
    assert(whole == thousandths(v as int) / 1000);
    let ghost start = out@;
    if v < 0 && (whole > 0 || frac > 0) {
        out.push('-');
    }
    let ghost signed = out@;
    push_nat_wide(out, whole);
    if frac != 0 {
        out.push('.');
        out.push(digit(frac / 100));
        if frac % 100 != 0 {
            out.push(digit((frac / 10) % 10));
            if frac % 10 != 0 {
                out.push(digit(frac % 10));
            }
        }
    }
    proof {
        let t = thousandths(v as int);
        let sign = if v < 0 && t > 0 {
            seq!['-']
        } else {
            Seq::<char>::empty()
        };
        assert(signed =~= start + sign);
        assert(out@ =~= start + coord_text(v as int));
    }
}

/// Writes the length or coordinate `v` at the end of `out`, in pixels.
pub fn push_coord(out: &mut String, v: i64)
    ensures
        final(out)@ == old(out)@ + coord_text(v as int),
{
    push_coord_wide(out, v as i128);
}

} // verus!
