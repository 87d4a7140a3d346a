//! The geometry of an arrowhead: where its two wings lie behind the tip.
//!
//! An arrow points along a heading `(dx, dy)`. Each wing lies 10 pixels from
//! the tip, half a radian to one side of the line back along the heading.
//! With `A = 10 cos(0.5)` and `B = 10 sin(0.5)`, and the heading brought to
//! length 1, the wings are `tip - (A dx + B dy, A dy - B dx)` and
//! `tip - (A dx - B dy, A dy + B dx)`.

use vstd::prelude::*;

use crate::units::in_coord_range;

verus! {

/// How far a wing lies behind the tip, along the heading: 10 cos(0.5)
/// pixels, in units.
pub const WING_BACK: i64 = 1229;

/// How far a wing lies beside the heading: 10 sin(0.5) pixels, in units.
pub const WING_SIDE: i64 = 671;

/// A heading whose two parts are both smaller than this is scaled up by it
/// before its length is taken, so that rounding the length to a whole number
/// loses little.
pub const SHORT_HEADING: i64 = 0x8000_0000;

/// Largest magnitude of each part of a heading.
pub const HEADING_LIMIT: i64 = 0x2000_0000_0000_0000;

/// Whether `r` is the square root of `n`, rounded down.
pub open spec fn is_sqrt_floor(n: int, r: int) -> bool {
    r >= 0 && r * r <= n < (r + 1) * (r + 1)
}

/// The square root of `n`, rounded down.
pub open spec fn sqrt_floor(n: int) -> int {
    choose|r: int| is_sqrt_floor(n, r)
}

/// `n / d` rounded to the nearest whole number, a half away from zero.
pub open spec fn round_div(n: int, d: int) -> int {
    if n >= 0 {
        (2 * n + d) / (2 * d)
    } else {
        -((2 * (-n) + d) / (2 * d))
    }
}

/// Whether both parts of a heading are small.
pub open spec fn is_short(dx: int, dy: int) -> bool {
    -SHORT_HEADING < dx < SHORT_HEADING && -SHORT_HEADING < dy < SHORT_HEADING
}

/// The heading `(dx, dy)` made ready to be brought to length 1: its two
/// parts, scaled up if both are small, and its length, rounded down. No
/// heading at all is read as pointing right.
pub open spec fn heading(dx: int, dy: int) -> (int, int, int) {
    if dx == 0 && dy == 0 {
        (1, 0, 1)
    } else if is_short(dx, dy) {
        (
            dx * SHORT_HEADING,
            dy * SHORT_HEADING,
            sqrt_floor(
                dx * SHORT_HEADING * (dx * SHORT_HEADING) + dy * SHORT_HEADING * (dy
                    * SHORT_HEADING),
            ),
        )
    } else {
        (dx, dy, sqrt_floor(dx * dx + dy * dy))
    }
}

/// The two wings of an arrowhead with its tip at `(x, y)` that points along
/// `(dx, dy)`: first the one to the left of the heading as the arrow sees
/// it on a screen whose y axis points down, then the one to its right.
pub open spec fn wings(x: int, y: int, dx: int, dy: int) -> ((int, int), (int, int)) {
    let (hx, hy, len) = heading(dx, dy);
    (
        (
            x - round_div(WING_BACK * hx + WING_SIDE * hy, len),
            y - round_div(WING_BACK * hy - WING_SIDE * hx, len),
        ),
        (
            x - round_div(WING_BACK * hx - WING_SIDE * hy, len),
            y - round_div(WING_BACK * hy + WING_SIDE * hx, len),
        ),
    )
}

/// A number has only one square root rounded down.
pub proof fn lemma_sqrt_floor_unique(n: int, a: int, b: int)
    requires
        is_sqrt_floor(n, a),
        is_sqrt_floor(n, b),
    ensures
        a == b,
{
    if a < b {
        assert((a + 1) * (a + 1) <= b * b) by (nonlinear_arith)
            requires
                0 <= a,
                a + 1 <= b,
        ;
    } else if b < a {
        assert((b + 1) * (b + 1) <= a * a) by (nonlinear_arith)
            requires
                0 <= b,
                b + 1 <= a,
        ;
    }
}

/// The square root of `n`, rounded down.
pub fn isqrt(n: u128) -> (r: u128)
    requires
        n < 0x4000_0000_0000_0000_0000_0000_0000_0000,
    ensures
        is_sqrt_floor(n as int, r as int),
        r == sqrt_floor(n as int),
        r < 0x8000_0000_0000_0000,
{
    let mut low: u128 = 0;
    let mut high: u128 = 0x8000_0000_0000_0000;
    assert(0x8000_0000_0000_0000int * 0x8000_0000_0000_0000int
        == 0x4000_0000_0000_0000_0000_0000_0000_0000int);
    while high - low > 1
        invariant
            low < high <= 0x8000_0000_0000_0000,
            low * low <= n < high * high,
        decreases high - low,
    {
        let mid: u128 = low + (high - low) / 2;
        assert(mid * mid < 0x4000_0000_0000_0000_0000_0000_0000_0000) by (nonlinear_arith)
            requires
                0 <= mid < 0x8000_0000_0000_0000,
        ;
        if mid * mid <= n {
            low = mid;
        } else {
            high = mid;
        }
    }
    proof {
        assert(is_sqrt_floor(n as int, low as int));
        lemma_sqrt_floor_unique(n as int, low as int, sqrt_floor(n as int));
    }
    low
}

/// `n / d` rounded to the nearest whole number, a half away from zero.
pub fn rounded_quotient(n: i128, d: i128) -> (q: i128)
    requires
        d > 0,
        -0x1000_0000_0000_0000_0000_0000_0000 <= n <= 0x1000_0000_0000_0000_0000_0000_0000,
        d <= 0x1000_0000_0000_0000_0000_0000_0000,
    ensures
        q == round_div(n as int, d as int),
{
    if n >= 0 {
        (2 * n + d) / (2 * d)
    } else {
        -((2 * (-n) + d) / (2 * d))
    }
}

/// A rounded quotient is no farther from zero than its bound: if `n` lies
/// within `bound` times `d`, the quotient lies within `bound`.
pub proof fn lemma_round_div_bound(n: int, d: int, bound: int)
    requires
        d > 0,
        bound >= 0,
        -bound * d <= n <= bound * d,
    ensures
        -bound <= round_div(n, d) <= bound,
{
    let m = if n >= 0 {
        n
    } else {
        -n
    };
    let q = (2 * m + d) / (2 * d);
    assert((-bound) * d == -(bound * d)) by (nonlinear_arith);
    assert(0 <= q <= bound) by (nonlinear_arith)
        requires
            d > 0,
            bound >= 0,
            0 <= m <= bound * d,
            q == (2 * m + d) / (2 * d),
    ;
}

/// Whether both parts of a heading are within the limit.
pub open spec fn heading_in_range(dx: int, dy: int) -> bool {
    -HEADING_LIMIT <= dx <= HEADING_LIMIT && -HEADING_LIMIT <= dy <= HEADING_LIMIT
}

/// Neither part of a heading is longer than the heading.
proof fn lemma_part_within_length(hx: int, hy: int, len: int)
    requires
        is_sqrt_floor(hx * hx + hy * hy, len),
    ensures
        -len <= hx <= len,
        -len <= hy <= len,
        (hx != 0 || hy != 0) ==> len >= 1,
{
    assert(hy * hy >= 0) by (nonlinear_arith);
    assert(hx * hx >= 0) by (nonlinear_arith);
    if hx > len {
        assert(hx * hx >= (len + 1) * (len + 1)) by (nonlinear_arith)
            requires
                hx >= len + 1,
                len >= 0,
        ;
    }
    if hx < -len {
        assert(hx * hx >= (len + 1) * (len + 1)) by (nonlinear_arith)
            requires
                -hx >= len + 1,
                len >= 0,
        ;
    }
    if hy > len {
        assert(hy * hy >= (len + 1) * (len + 1)) by (nonlinear_arith)
            requires
                hy >= len + 1,
                len >= 0,
        ;
    }
    if hy < -len {
        assert(hy * hy >= (len + 1) * (len + 1)) by (nonlinear_arith)
            requires
                -hy >= len + 1,
                len >= 0,
        ;
    }
    if hx != 0 {
        assert(hx * hx >= 1) by (nonlinear_arith)
            requires
                hx != 0,
        ;
    }
    if hy != 0 {
        assert(hy * hy >= 1) by (nonlinear_arith)
            requires
                hy != 0,
        ;
    }
}

/// Whether `(hx, hy, len)` is a heading with its length: neither part is
/// longer than the length, which is at least 1.
pub open spec fn is_heading(hx: int, hy: int, len: int) -> bool {
    &&& 1 <= len < 0x8000_0000_0000_0000
    &&& -len <= hx <= len
    &&& -len <= hy <= len
}

fn prepared_heading(dx: i64, dy: i64) -> (h: (i128, i128, i128))
    requires
        heading_in_range(dx as int, dy as int),
    ensures
        (h.0 as int, h.1 as int, h.2 as int) == heading(dx as int, dy as int),
        is_heading(h.0 as int, h.1 as int, h.2 as int),
{
    if dx == 0 && dy == 0 {
        return (1, 0, 1);
    }
    let short: bool = -SHORT_HEADING < dx && dx < SHORT_HEADING && -SHORT_HEADING < dy && dy
        < SHORT_HEADING;
    let hx: i128 = if short {
        (dx as i128) * (SHORT_HEADING as i128)
    } else {
        dx as i128
    };
    let hy: i128 = if short {
        (dy as i128) * (SHORT_HEADING as i128)
    } else {
        dy as i128
    };
    assert(hx != 0 || hy != 0);
    let squares: u128 = sum_of_squares(hx, hy);
    let len: i128 = isqrt(squares) as i128;
    proof {
        lemma_part_within_length(hx as int, hy as int, len as int);
    }
    (hx, hy, len)
}

fn sum_of_squares(hx: i128, hy: i128) -> (n: u128)
    requires
        -0x4000_0000_0000_0000 <= hx <= 0x4000_0000_0000_0000,
        -0x4000_0000_0000_0000 <= hy <= 0x4000_0000_0000_0000,
    ensures
        n == hx * hx + hy * hy,
        n < 0x4000_0000_0000_0000_0000_0000_0000_0000,
{
    assert(0 <= hx * hx <= 0x1000_0000_0000_0000_0000_0000_0000_0000) by (nonlinear_arith)
        requires
            -0x4000_0000_0000_0000 <= hx <= 0x4000_0000_0000_0000,
    ;
    assert(0 <= hy * hy <= 0x1000_0000_0000_0000_0000_0000_0000_0000) by (nonlinear_arith)
        requires
            -0x4000_0000_0000_0000 <= hy <= 0x4000_0000_0000_0000,
    ;
    (hx * hx + hy * hy) as u128
}

/// `(a * u + b * v) / len`, rounded: one coordinate of the way from the tip
/// to a wing.
fn wing_offset(a: i128, u: i128, b: i128, v: i128, len: i128) -> (q: i128)
    requires
        is_heading(u as int, v as int, len as int),
        0 <= a <= 2048,
        -2048 <= b <= 2048,
    ensures
        q == round_div(a * u + b * v, len as int),
        -4096 <= q <= 4096,
{
    proof {
        assert(-(2048 * len) <= a * u <= 2048 * len) by (nonlinear_arith)
            requires
                -len <= u <= len,
                0 <= a <= 2048,
        ;
        assert(-(2048 * len) <= b * v <= 2048 * len) by (nonlinear_arith)
            requires
                -len <= v <= len,
                -2048 <= b <= 2048,
        ;
        lemma_round_div_bound(a * u + b * v, len as int, 4096);
    }
    rounded_quotient(a * u + b * v, len)
}

/// The two wings of an arrowhead with its tip at `(x, y)` that points along
/// `(dx, dy)`.
pub fn arrow_wings(x: i64, y: i64, dx: i64, dy: i64) -> (w: ((i64, i64), (i64, i64)))
    requires
        in_coord_range(x as int),
        in_coord_range(y as int),
        heading_in_range(dx as int, dy as int),
    ensures
        ((w.0.0 as int, w.0.1 as int), (w.1.0 as int, w.1.1 as int)) == wings(
            x as int,
            y as int,
            dx as int,
            dy as int,
        ),
{
    let (hx, hy, len) = prepared_heading(dx, dy);
    let back: i128 = WING_BACK as i128;
    let side: i128 = WING_SIDE as i128;
    let ax1: i128 = (x as i128) - wing_offset(back, hx, side, hy, len);
    let ay1: i128 = (y as i128) - wing_offset(back, hy, -side, hx, len);
    let ax2: i128 = (x as i128) - wing_offset(back, hx, -side, hy, len);
    let ay2: i128 = (y as i128) - wing_offset(back, hy, side, hx, len);
    ((ax1 as i64, ay1 as i64), (ax2 as i64, ay2 as i64))
}

/// An arrowhead that points straight right or straight left has its wings
/// exactly `WING_BACK` behind the tip and `WING_SIDE` above and below it.
pub proof fn wings_of_level_arrow(x: int, y: int, dx: int)
    requires
        dx != 0,
    ensures
        dx > 0 ==> wings(x, y, dx, 0) == ((x - WING_BACK, y + WING_SIDE), (x - WING_BACK, y - WING_SIDE)),
        dx < 0 ==> wings(x, y, dx, 0) == ((x + WING_BACK, y - WING_SIDE), (x + WING_BACK, y + WING_SIDE)),
{
    let (hx, hy, len) = heading(dx, 0);
    let m = if hx >= 0 {
        hx
    } else {
        -hx
    };
    assert(hy == 0);
    assert(hx != 0 && (dx > 0 <==> hx > 0)) by (nonlinear_arith)
        requires
            dx != 0,
            hx == dx || hx == dx * SHORT_HEADING,
            SHORT_HEADING > 0,
    ;
    assert(is_sqrt_floor(hx * hx + hy * hy, m)) by (nonlinear_arith)
        requires
            m >= 1,
            hy == 0,
            m == hx || m == -hx,
    ;
    lemma_sqrt_floor_unique(hx * hx + hy * hy, m, sqrt_floor(hx * hx + hy * hy)) ;
    assert(len == m);
    lemma_exact_quotient(WING_BACK as int, m);
    lemma_exact_quotient(WING_SIDE as int, m);
    assert(WING_BACK * hy == 0 && WING_SIDE * hy == 0);
    if hx > 0 {
        assert(WING_BACK * hx == WING_BACK * m && WING_SIDE * hx == WING_SIDE * m);
    } else {
        assert(WING_BACK * hx == -(WING_BACK * m) && WING_SIDE * hx == -(WING_SIDE * m))
            by (nonlinear_arith)
            requires
                hx == -m,
        ;
    }
}

/// A whole multiple of `d`, divided by `d` and rounded, is that multiple's
/// count, whatever its sign.
proof fn lemma_exact_quotient(k: int, d: int)
    requires
        k >= 0,
        d >= 1,
    ensures
        round_div(k * d, d) == k,
        round_div(-(k * d), d) == -k,
{
    assert(k * d >= 0) by (nonlinear_arith)
        requires
            k >= 0,
            d >= 1,
    ;
    assert((2 * (k * d) + d) / (2 * d) == k) by (nonlinear_arith)
        requires
            k >= 0,
            d >= 1,
    ;
    if k * d == 0 {
        assert(k == 0) by (nonlinear_arith)
            requires
                k * d == 0,
                k >= 0,
                d >= 1,
        ;
    }
}

/// A rounded quotient times its divisor is within half the divisor of what
/// was divided.
proof fn lemma_round_div_error(n: int, d: int)
    requires
        d >= 1,
    ensures
        -d <= 2 * (round_div(n, d) * d - n) <= d,
{
    let m = if n >= 0 {
        n
    } else {
        -n
    };
    let q = (2 * m + d) / (2 * d);
    assert(2 * d * q <= 2 * m + d < 2 * d * q + 2 * d) by (nonlinear_arith)
        requires
            d >= 1,
            q == (2 * m + d) / (2 * d),
    ;
    assert(2 * d * q == 2 * (q * d)) by (nonlinear_arith);
    if n < 0 {
        assert((-q) * d == -(q * d)) by (nonlinear_arith);
    }
}

/// The square of a number near `p` is near the square of `p`: for `e`
/// within half of `l` and `p` within `k` times `l`, four times the squares
/// differ by at most `4 k + 1` times the square of `l`.
proof fn lemma_square_near(p: int, e: int, l: int, k: int)
    requires
        l >= 1,
        k >= 0,
        -l <= 2 * e <= l,
        -(k * l) <= p <= k * l,
    ensures
        4 * ((p + e) * (p + e)) >= 4 * (p * p) - 4 * (k * (l * l)),
        4 * ((p + e) * (p + e)) <= 4 * (p * p) + 4 * (k * (l * l)) + l * l,
{
    let pe = p * e;
    let ee = e * e;
    let kll = k * (l * l);
    assert((p + e) * (p + e) == p * p + 2 * pe + ee) by (nonlinear_arith)
        requires
            pe == p * e,
            ee == e * e,
    ;
    assert(0 <= 4 * ee <= l * l) by (nonlinear_arith)
        requires
            -l <= 2 * e <= l,
            ee == e * e,
    ;
    assert(-kll <= 2 * pe <= kll) by (nonlinear_arith)
        requires
            l >= 1,
            k >= 0,
            -l <= 2 * e <= l,
            -(k * l) <= p <= k * l,
            pe == p * e,
            kll == k * (l * l),
    ;
}

/// The two sums that place a wing have squares whose sum is the squared
/// length of the heading times the squared length of a wing.
proof fn lemma_rotation_keeps_length(a: int, b: int, u: int, v: int)
    ensures
        (a * u + b * v) * (a * u + b * v) + (a * v - b * u) * (a * v - b * u) == (a * a + b * b)
            * (u * u + v * v),
{
    let au = a * u;
    let bv = b * v;
    let av = a * v;
    let bu = b * u;
    let aa = a * a;
    let bb = b * b;
    let uu = u * u;
    let vv = v * v;
    assert((au + bv) * (au + bv) == au * au + 2 * (au * bv) + bv * bv) by (nonlinear_arith);
    assert((av - bu) * (av - bu) == av * av - 2 * (av * bu) + bu * bu) by (nonlinear_arith);
    assert(au * bv == av * bu) by (nonlinear_arith)
        requires
            au == a * u,
            bv == b * v,
            av == a * v,
            bu == b * u,
    ;
    assert(au * au == aa * uu) by (nonlinear_arith)
        requires
            au == a * u,
            aa == a * a,
            uu == u * u,
    ;
    assert(bv * bv == bb * vv) by (nonlinear_arith)
        requires
            bv == b * v,
            bb == b * b,
            vv == v * v,
    ;
    assert(av * av == aa * vv) by (nonlinear_arith)
        requires
            av == a * v,
            aa == a * a,
            vv == v * v,
    ;
    assert(bu * bu == bb * uu) by (nonlinear_arith)
        requires
            bu == b * u,
            bb == b * b,
            uu == u * u,
    ;
    assert((aa + bb) * (uu + vv) == aa * uu + aa * vv + bb * uu + bb * vv) by (nonlinear_arith);
}

/// How far a point lies from the tip, squared, for a wing that is placed by
/// the two sums `p` and `q` over the length `l`.
proof fn lemma_wing_reach(p: int, q: int, n: int, l: int)
    requires
        l >= 1,
        l * l <= n < (l + 1) * (l + 1),
        n == l * l || l >= 0x40_0000,
        p * p + q * q == (WING_BACK * WING_BACK + WING_SIDE * WING_SIDE) * n,
        -((WING_BACK + WING_SIDE) * l) <= p <= (WING_BACK + WING_SIDE) * l,
        -((WING_BACK + WING_SIDE) * l) <= q <= (WING_BACK + WING_SIDE) * l,
    ensures
        ({
            let ox = round_div(p, l);
            let oy = round_div(q, l);
            1398 * 1398 <= ox * ox + oy * oy <= 1402 * 1402
        }),
{
    let ox = round_div(p, l);
    let oy = round_div(q, l);
    let ex = ox * l - p;
    let ey = oy * l - q;
    let k: int = 1900;
    let r: int = 1960682;
    assert(WING_BACK + WING_SIDE == k);
    assert(WING_BACK * WING_BACK + WING_SIDE * WING_SIDE == r);
    let s = ox * ox + oy * oy;
    let ll = l * l;
    let kll = k * ll;
    let rll = r * ll;
    let lls = ll * s;
    lemma_round_div_error(p, l);
    lemma_round_div_error(q, l);
    lemma_square_near(p, ex, l, k);
    lemma_square_near(q, ey, l, k);
    assert(ll >= 1) by (nonlinear_arith)
        requires
            l >= 1,
            ll == l * l,
    ;
    assert((p + ex) * (p + ex) == ll * (ox * ox)) by (nonlinear_arith)
        requires
            p + ex == ox * l,
            ll == l * l,
    ;
    assert((q + ey) * (q + ey) == ll * (oy * oy)) by (nonlinear_arith)
        requires
            q + ey == oy * l,
            ll == l * l,
    ;
    assert(lls == ll * (ox * ox) + ll * (oy * oy)) by (nonlinear_arith)
        requires
            s == ox * ox + oy * oy,
            lls == ll * s,
    ;
    assert(kll == 1900 * ll);
    assert(rll == 1960682 * ll);
    // No less than the squared length of a wing less what rounding can
    // take, ...
    assert(r * n >= rll) by (nonlinear_arith)
        requires
            n >= ll,
            rll == r * ll,
            r >= 0,
    ;
    assert(4 * lls >= 4 * rll - 8 * kll);
    assert(s >= 1960682 - 3800) by (nonlinear_arith)
        requires
            4 * lls >= 4 * (1960682 * ll) - 8 * (1900 * ll),
            lls == ll * s,
            ll >= 1,
    ;
    // ... and no more than that length and what rounding can add.
    assert(r * n <= rll + ll) by {
        if n != ll {
            assert((l + 1) * (l + 1) == ll + 2 * l + 1) by (nonlinear_arith)
                requires
                    ll == l * l,
            ;
            assert(1960682 * (2 * l) <= ll) by (nonlinear_arith)
                requires
                    l >= 0x40_0000,
                    ll == l * l,
            ;
            assert(r * n <= 1960682 * ll + 1960682 * (2 * l));
        }
    }
    assert(4 * lls <= 4 * rll + 4 * ll + 8 * kll + 2 * ll);
    assert(s <= 1960682 + 3800 + 2) by (nonlinear_arith)
        requires
            4 * lls <= 4 * (1960682 * ll) + 4 * ll + 8 * (1900 * ll) + 2 * ll,
            lls == ll * s,
            ll >= 1,
    ;
}

/// What is known of a heading that was made ready: its length is the root
/// of its squares, no part is longer than the length, and the length is 1
/// for no heading and large for every other.
proof fn lemma_heading(dx: int, dy: int)
    ensures
        ({
            let (hx, hy, len) = heading(dx, dy);
            &&& len >= 1
            &&& len * len <= hx * hx + hy * hy < (len + 1) * (len + 1)
            &&& hx * hx + hy * hy == len * len || len >= SHORT_HEADING
            &&& -len <= hx <= len
            &&& -len <= hy <= len
        }),
{
    let (hx, hy, len) = heading(dx, dy);
    if dx == 0 && dy == 0 {
    } else {
        let n = hx * hx + hy * hy;
        assert(hx * hx >= 0 && hy * hy >= 0) by (nonlinear_arith);
        lemma_sqrt_floor_exists(n);
        lemma_part_within_length(hx, hy, len);
        // One part is at least as long as a short heading is not.
        assert(hx >= SHORT_HEADING || hx <= -SHORT_HEADING || hy >= SHORT_HEADING || hy
            <= -SHORT_HEADING) by (nonlinear_arith)
            requires
                dx != 0 || dy != 0,
                is_short(dx, dy) ==> hx == dx * SHORT_HEADING && hy == dy * SHORT_HEADING,
                !is_short(dx, dy) ==> hx == dx && hy == dy,
                SHORT_HEADING == 0x8000_0000,
        ;
    }
}

/// Every number that is not negative has a square root rounded down.
proof fn lemma_sqrt_floor_exists(n: int)
    requires
        n >= 0,
    ensures
        is_sqrt_floor(n, sqrt_floor(n)),
    decreases n,
{
    if n == 0 {
        assert(is_sqrt_floor(0, 0));
    } else {
        lemma_sqrt_floor_exists(n - 1);
        let r = sqrt_floor(n - 1);
        if (r + 1) * (r + 1) <= n {
            assert(n < (r + 2) * (r + 2)) by (nonlinear_arith)
                requires
                    n - 1 < (r + 1) * (r + 1),
                    r >= 0,
            ;
            assert(is_sqrt_floor(n, r + 1));
        } else {
            assert(is_sqrt_floor(n, r));
        }
    }
}

/// Each wing of an arrowhead lies 10 pixels from the tip, to within a
/// fiftieth of a pixel, whatever the heading.
pub proof fn wings_are_ten_pixels_from_the_tip(x: int, y: int, dx: int, dy: int)
    ensures
        ({
            let ((ax1, ay1), (ax2, ay2)) = wings(x, y, dx, dy);
            &&& 1398 * 1398 <= (x - ax1) * (x - ax1) + (y - ay1) * (y - ay1) <= 1402 * 1402
            &&& 1398 * 1398 <= (x - ax2) * (x - ax2) + (y - ay2) * (y - ay2) <= 1402 * 1402
        }),
{
    let (hx, hy, len) = heading(dx, dy);
    let n = hx * hx + hy * hy;
    lemma_heading(dx, dy);
    let a = WING_BACK as int;
    let b = WING_SIDE as int;
    assert(-(a * len) <= a * hx <= a * len && -(a * len) <= a * hy <= a * len) by (nonlinear_arith)
        requires
            -len <= hx <= len,
            -len <= hy <= len,
            a >= 0,
    ;
    assert(-(b * len) <= b * hx <= b * len && -(b * len) <= b * hy <= b * len) by (nonlinear_arith)
        requires
            -len <= hx <= len,
            -len <= hy <= len,
            b >= 0,
    ;
    assert((a + b) * len == a * len + b * len) by (nonlinear_arith);
    lemma_rotation_keeps_length(a, b, hx, hy);
    lemma_wing_reach(a * hx + b * hy, a * hy - b * hx, n, len);
    lemma_rotation_keeps_length(a, -b, hx, hy);
    assert((-b) * hy == -(b * hy) && (-b) * hx == -(b * hx)) by (nonlinear_arith);
    assert((-b) * (-b) == b * b) by (nonlinear_arith);
    lemma_wing_reach(a * hx - b * hy, a * hy + b * hx, n, len);
}

} // verus!
