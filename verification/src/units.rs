//! The fixed-point scale on which all lengths and coordinates are measured.
//!
//! A length is an `i64` that counts units of 1/140 pixel. The layout is then
//! plain integer arithmetic: it has no rounding error to reason about, and the
//! few places that do round (a midpoint, a share of a deficit, the canvas
//! size) say in which direction.

use vstd::prelude::*;

verus! {

/// Number of coordinate units in one pixel.
///
/// Tenths, quarters and fourteenths of a pixel are whole numbers of units, so
/// scaling a glyph width by `font_size / 14` never rounds.
pub const UNITS_PER_PX: i64 = 140;

/// Largest magnitude of a coordinate that the drawing functions accept.
pub const COORD_LIMIT: i64 = 0x1000_0000_0000_0000;

/// Whether `v` lies in the range of coordinates that can be drawn.
pub open spec fn in_coord_range(v: int) -> bool {
    -COORD_LIMIT <= v <= COORD_LIMIT
}

/// The number of units in `n` whole pixels.
pub open spec fn px_spec(n: int) -> int {
    n * UNITS_PER_PX
}

/// The values of `v` as mathematical integers.
pub open spec fn ints(v: Seq<i64>) -> Seq<int> {
    v.map_values(|x: i64| x as int)
}

/// The smaller of two integers.
pub open spec fn min_int(a: int, b: int) -> int {
    if a <= b {
        a
    } else {
        b
    }
}

/// The larger of two integers.
pub open spec fn max_int(a: int, b: int) -> int {
    if a >= b {
        a
    } else {
        b
    }
}

/// `v` held at `limit`: `v` itself, or `limit` where `v` is beyond it.
pub open spec fn capped(v: int, limit: int) -> int {
    min_int(v, limit)
}

/// Each of `values` held at `limit`.
pub open spec fn all_capped(values: Seq<int>, limit: int) -> Seq<int> {
    values.map_values(|v: int| capped(v, limit))
}

/// `a / d` rounded up, for a positive divisor.
pub open spec fn ceil_div_spec(a: int, d: int) -> int {
    (a + d - 1) / d
}

/// The whole pixels needed to cover `v` units, within the range of `u32`.
pub open spec fn px_ceil_spec(v: int) -> int {
    let p = ceil_div_spec(v, UNITS_PER_PX as int);
    if p < 0 {
        0
    } else if p > u32::MAX {
        u32::MAX as int
    } else {
        p
    }
}

/// Converts a whole number of pixels to units.
pub fn px(n: i64) -> (r: i64)
    requires
        i64::MIN <= px_spec(n as int) <= i64::MAX,
    ensures
        r == px_spec(n as int),
{
    n * UNITS_PER_PX
}

/// The larger of two lengths.
pub fn max_units(a: i64, b: i64) -> (r: i64)
    ensures
        r == max_int(a as int, b as int),
{
    if a >= b {
        a
    } else {
        b
    }
}

/// The sum of two lengths, held at `limit`.
pub fn add_capped(a: i64, b: i64, limit: i64) -> (r: i64)
    requires
        0 <= a <= limit,
        0 <= b,
    ensures
        r == capped(a + b, limit as int),
        0 <= r <= limit,
{
    if b >= limit - a {
        limit
    } else {
        a + b
    }
}

/// Half of `v`, rounded down.
pub fn half(v: i64) -> (r: i64)
    ensures
        r == (v as int) / 2,
{
    if v >= 0 {
        v / 2
    } else {
        let m: i64 = -(v + 1);
        -(m / 2) - 1
    }
}

/// `a / d` rounded up.
pub fn ceil_div(a: i64, d: i64) -> (r: i64)
    requires
        a >= 0,
        d > 0,
    ensures
        r == ceil_div_spec(a as int, d as int),
        r * d >= a,
        r * d < a + d,
        r >= 0,
{
    let q: i64 = a / d;
    let m: i64 = a % d;
    proof {
        lemma_ceil_div(a as int, d as int);
        assert(a == q * d + m && 0 <= m < d && q >= 0) by (nonlinear_arith)
            requires
                a >= 0,
                d > 0,
                q == a / d,
                m == a % d,
        ;
    }
    if m == 0 {
        q
    } else {
        assert(q < a) by (nonlinear_arith)
            requires
                a == q * d + m,
                0 < m < d,
                q >= 0,
        ;
        q + 1
    }
}

/// `ceil_div_spec(a, d)` is the least multiple count of `d` that reaches `a`.
pub proof fn lemma_ceil_div(a: int, d: int)
    requires
        d > 0,
    ensures
        ceil_div_spec(a, d) * d >= a,
        ceil_div_spec(a, d) * d < a + d,
        a % d == 0 ==> ceil_div_spec(a, d) == a / d,
        a % d != 0 ==> ceil_div_spec(a, d) == a / d + 1,
        a >= 0 ==> ceil_div_spec(a, d) >= 0,
{
    let q = a / d;
    let m = a % d;
    assert(a == q * d + m && 0 <= m < d) by (nonlinear_arith)
        requires
            d > 0,
            q == a / d,
            m == a % d,
    ;
    let c = (a + d - 1) / d;
    let cm = (a + d - 1) % d;
    assert(a + d - 1 == c * d + cm && 0 <= cm < d) by (nonlinear_arith)
        requires
            d > 0,
            c == (a + d - 1) / d,
            cm == (a + d - 1) % d,
    ;
    if m == 0 {
        assert(c == q) by (nonlinear_arith)
            requires
                d > 0,
                a == q * d,
                a + d - 1 == c * d + cm,
                0 <= cm < d,
        ;
    } else {
        assert(c == q + 1) by (nonlinear_arith)
            requires
                d > 0,
                a == q * d + m,
                0 < m < d,
                a + d - 1 == c * d + cm,
                0 <= cm < d,
        ;
    }
    assert(c * d >= a && c * d < a + d) by (nonlinear_arith)
        requires
            d > 0,
            a == q * d + m,
            0 <= m < d,
            m == 0 ==> c == q,
            m != 0 ==> c == q + 1,
    ;
    if a >= 0 {
        assert(c >= 0) by (nonlinear_arith)
            requires
                d > 0,
                c * d >= a,
                a >= 0,
        ;
    }
}

/// The whole pixels needed to cover `v` units: rounded up, and held within
/// the range of `u32` (a negative length needs no pixel).
pub fn px_ceil(v: i64) -> (r: u32)
    ensures
        r == px_ceil_spec(v as int),
{
    proof {
        lemma_ceil_div(v as int, UNITS_PER_PX as int);
    }
    if v <= 0 {
        assert(ceil_div_spec(v as int, UNITS_PER_PX as int) <= 0);
        0
    } else {
        let q: i64 = v / UNITS_PER_PX;
        let m: i64 = v % UNITS_PER_PX;
        let p: i64 = if m == 0 {
            q
        } else {
            q + 1
        };
        if p > 0xffff_ffff {
            u32::MAX
        } else {
            p as u32
        }
    }
}

} // verus!
