//! Signed-distance-field geometry for the border renderer, in fixed-point
//! arithmetic with `SUBPX` (256) units per pixel.
//!
//! The shape is an axis-aligned rounded rectangle centered on the canvas
//! with half-extents of half the canvas width and height. Its signed
//! distance is negative inside, zero on the boundary and positive outside.

use vstd::arithmetic::div_mod::{
    lemma_div_is_ordered,
    lemma_div_multiples_vanish,
    lemma_fundamental_div_mod_converse,
};
use vstd::math::{abs, max, min};
use vstd::prelude::*;

verus! {

/// Floor of the square root of `n` (0 for negative arguments).
pub open spec fn spec_isqrt(n: int) -> int
    decreases n,
{
    if n <= 0 {
        0
    } else {
        let r = 2 * spec_isqrt(n / 4);
        if (r + 1) * (r + 1) <= n {
            r + 1
        } else {
            r
        }
    }
}

/// `spec_isqrt` is the integer square root: its square is at most `n`, and
/// the next square is beyond `n`.
pub proof fn lemma_isqrt_bounds(n: int)
    requires
        n >= 0,
    ensures
        0 <= spec_isqrt(n),
        spec_isqrt(n) * spec_isqrt(n) <= n,
        n < (spec_isqrt(n) + 1) * (spec_isqrt(n) + 1),
    decreases n,
{
    if n > 0 {
        lemma_isqrt_bounds(n / 4);
        let r0 = spec_isqrt(n / 4);
        let r = 2 * r0;
        assert(r * r <= n) by (nonlinear_arith)
            requires
                r == 2 * r0,
                r0 * r0 <= n / 4,
                n > 0;
        assert(n < (r + 2) * (r + 2)) by (nonlinear_arith)
            requires
                r == 2 * r0,
                n / 4 < (r0 + 1) * (r0 + 1),
                n > 0;
    }
}

/// The square root of a perfect square is exact.
pub proof fn lemma_isqrt_square(x: int)
    requires
        x >= 0,
    ensures
        spec_isqrt(x * x) == x,
{
    lemma_isqrt_bounds(x * x);
    let r = spec_isqrt(x * x);
    assert(r == x) by (nonlinear_arith)
        requires
            r >= 0,
            x >= 0,
            r * r <= x * x,
            x * x < (r + 1) * (r + 1);
}

/// Integer square root, rounded down.
pub fn isqrt(n: u64) -> (r: u64)
    requires
        n < 0x4000000000000000,
    ensures
        r as int == spec_isqrt(n as int),
        r * r <= n,
    decreases n,
{
    proof {
        lemma_isqrt_bounds(n as int);
    }
    if n == 0 {
        0
    } else {
        let r0 = isqrt(n / 4);
        proof {
            lemma_isqrt_bounds(n as int / 4);
            assert(n as int / 4 < 0x1000000000000000) by (nonlinear_arith)
                requires n < 0x4000000000000000;
            assert(r0 < 0x40000000) by (nonlinear_arith)
                requires
                    r0 as int * r0 as int <= n as int / 4,
                    n as int / 4 < 0x1000000000000000;
        }
        let r = 2 * r0;
        proof {
            assert((r as int + 1) * (r as int + 1) <= 0x4000000000000000) by (nonlinear_arith)
                requires r as int == 2 * r0 as int, r0 < 0x40000000;
        }
        if (r + 1) * (r + 1) <= n {
            r + 1
        } else {
            r
        }
    }
}

/// The cubic ease curve `x^2 * (3 - 2x)` on fixed-point inputs: `x` ranges
/// over `[0, 256]` standing for `[0, 1]`, and so does the result.
pub open spec fn s_curve(x: int) -> int {
    x * x * (3 * 256 - 2 * x) / 65536int
}

/// Cubic smoothstep: 0 at and below `e0`, 256 (one) at and above `e1`, the
/// ease curve of the normalized position in between.
pub open spec fn spec_smoothstep(e0: int, e1: int, t: int) -> int
    recommends
        e0 < e1,
{
    if t <= e0 {
        0
    } else if t >= e1 {
        256
    } else {
        s_curve((t - e0) * 256 / (e1 - e0))
    }
}

/// The ease curve maps `[0, 256]` into `[0, 256]`, with the endpoints and
/// the midpoint exact.
pub proof fn lemma_s_curve_range(x: int)
    requires
        0 <= x <= 256,
    ensures
        0 <= s_curve(x) <= 256,
        x == 0 ==> s_curve(x) == 0,
        x == 128 ==> s_curve(x) == 128,
        x == 256 ==> s_curve(x) == 256,
{
    let num = x * x * (3 * 256 - 2 * x);
    assert(16777216int - num == (256 - x) * (256 - x) * (2 * x + 256)) by (nonlinear_arith)
        requires num == x * x * (3 * 256 - 2 * x);
    assert(num >= 0) by (nonlinear_arith)
        requires
            0 <= x <= 256,
            num == x * x * (3 * 256 - 2 * x);
    assert((256 - x) * (256 - x) * (2 * x + 256) >= 0) by (nonlinear_arith)
        requires 0 <= x <= 256;
    lemma_div_is_ordered(num, 16777216int, 65536int);
    lemma_div_is_ordered(0, num, 65536int);
    if x == 128 {
        assert(num == 128 * 65536int) by (nonlinear_arith)
            requires x == 128, num == x * x * (3 * 256 - 2 * x);
        lemma_div_multiples_vanish(128, 65536int);
    }
    if x == 256 {
        assert(num == 256 * 65536int) by (nonlinear_arith)
            requires x == 256, num == x * x * (3 * 256 - 2 * x);
        lemma_div_multiples_vanish(256, 65536int);
    }
}

/// Smoothstep stays within `[0, 256]`, is 0 up to `e0`, and is 256 (one)
/// from `e1` on.
pub proof fn lemma_smoothstep_range(e0: int, e1: int, t: int)
    requires
        e0 < e1,
    ensures
        0 <= spec_smoothstep(e0, e1, t) <= 256,
        t <= e0 ==> spec_smoothstep(e0, e1, t) == 0,
        t >= e1 ==> spec_smoothstep(e0, e1, t) == 256,
{
    if e0 < t < e1 {
        let x = (t - e0) * 256 / (e1 - e0);
        assert(0 <= x <= 256) by {
            assert((t - e0) * 256 <= (e1 - e0) * 256) by (nonlinear_arith)
                requires t <= e1;
            lemma_div_is_ordered((t - e0) * 256, (e1 - e0) * 256, e1 - e0);
            lemma_div_multiples_vanish(256, e1 - e0);
            assert((t - e0) * 256 >= 0) by (nonlinear_arith)
                requires t >= e0;
            lemma_div_is_ordered(0, (t - e0) * 256, e1 - e0);
        }
        lemma_s_curve_range(x);
    }
}

/// At the midpoint of a symmetric range the smoothstep is exactly one half
/// (128 of 256).
pub proof fn lemma_smoothstep_midpoint(e0: int, e1: int, t: int)
    requires
        e0 < e1,
        (e1 - e0) % 2 == 0,
        t == e0 + (e1 - e0) / 2,
    ensures
        spec_smoothstep(e0, e1, t) == 128,
{
    let d = e1 - e0;
    assert(t - e0 == d / 2);
    assert(d / 2 * 2 == d) by {
        lemma_fundamental_div_mod_converse(d, 2, d / 2, 0);
        assert(d == 2 * (d / 2) + 0);
    }
    assert(e0 < t < e1) by {
        assert(d >= 2) by {
            if d == 1 {
                assert(1int % 2 == 1);
            }
        }
        assert(d / 2 >= 1 && d / 2 < d) by {
            lemma_div_is_ordered(2, d, 2);
            assert(2int / 2 == 1);
        }
    }
    let x = (t - e0) * 256 / d;
    assert((t - e0) * 256 == 128 * d) by (nonlinear_arith)
        requires t - e0 == d / 2, d / 2 * 2 == d;
    lemma_div_multiples_vanish(128, d);
    lemma_s_curve_range(128);
}

/// Fixed-point cubic smoothstep over an increasing edge pair.
pub fn smoothstep(e0: i64, e1: i64, t: i64) -> (r: i64)
    requires
        e0 < e1,
        -0x100000000000 <= e0 && e0 <= 0x100000000000,
        -0x100000000000 <= e1 && e1 <= 0x100000000000,
        -0x100000000000 <= t && t <= 0x100000000000,
    ensures
        r as int == spec_smoothstep(e0 as int, e1 as int, t as int),
        0 <= r <= 256,
{
    proof {
        lemma_smoothstep_range(e0 as int, e1 as int, t as int);
    }
    if t <= e0 {
        0
    } else if t >= e1 {
        256
    } else {
        let num = (t - e0) as u64;
        let den = (e1 - e0) as u64;
        let x = num * 256 / den;
        proof {
            assert(num * 256 <= den * 256) by (nonlinear_arith)
                requires num <= den;
            lemma_div_is_ordered(num as int * 256, den as int * 256, den as int);
            lemma_div_multiples_vanish(256, den as int);
            lemma_s_curve_range(x as int);
            assert(x as int * x as int <= 65536) by (nonlinear_arith)
                requires 0 <= x as int <= 256;
            assert(x as int * x as int * (3 * 256 - 2 * x as int) < 0x10000000000)
                by (nonlinear_arith)
                requires 0 <= x as int <= 256;
        }
        (x * x * (3 * 256 - 2 * x) / (256 * 256)) as i64
    }
}

/// Signed distance, in `SUBPX` units, from the point `(fx, fy)` (also in
/// `SUBPX` units) to the boundary of the rounded rectangle that covers a
/// `w` by `h` pixel canvas with corner radius `rq` (in `SUBPX` units):
/// fold to one quadrant, offset by the corner circle center, and combine
/// the Euclidean distance outside with the component maximum inside.
pub open spec fn spec_rrect_sdf(fx: int, fy: int, w: int, h: int, rq: int) -> int {
    let qx = abs(fx - w * 128) - w * 128 + rq;
    let qy = abs(fy - h * 128) - h * 128 + rq;
    spec_isqrt(max(qx, 0) * max(qx, 0) + max(qy, 0) * max(qy, 0)) + min(max(qx, qy), 0) - rq
}

/// Fixed-point signed distance to the canvas's rounded-rectangle boundary.
pub fn rrect_sdf(fx: i64, fy: i64, w: u32, h: u32, rq: i64) -> (d: i64)
    requires
        w <= 65535,
        h <= 65535,
        -0x10000000 <= fx && fx <= 0x10000000,
        -0x10000000 <= fy && fy <= 0x10000000,
        0 <= rq <= 0x10000000,
    ensures
        d as int == spec_rrect_sdf(fx as int, fy as int, w as int, h as int, rq as int),
        -0x40000000 <= d <= 0x80000000,
{
    let cx: i64 = (w as i64) * 128;
    let cy: i64 = (h as i64) * 128;
    let dx = if fx >= cx {
        fx - cx
    } else {
        cx - fx
    };
    let dy = if fy >= cy {
        fy - cy
    } else {
        cy - fy
    };
    let qx = dx - cx + rq;
    let qy = dy - cy + rq;
    let ox = if qx > 0 {
        qx
    } else {
        0
    };
    let oy = if qy > 0 {
        qy
    } else {
        0
    };
    proof {
        assert(ox * ox + oy * oy < 0x4000000000000000) by (nonlinear_arith)
            requires
                0 <= ox < 0x40000000,
                0 <= oy < 0x40000000;
    }
    let hyp = isqrt((ox as u64) * (ox as u64) + (oy as u64) * (oy as u64));
    proof {
        let sq = ox as int * ox as int + oy as int * oy as int;
        lemma_isqrt_bounds(sq);
        let root = spec_isqrt(sq);
        assert(root < 0x80000000) by (nonlinear_arith)
            requires
                root * root <= sq,
                root >= 0,
                sq < 0x4000000000000000;
    }
    let inner = if qx > qy {
        qx
    } else {
        qy
    };
    let inner = if inner < 0 {
        inner
    } else {
        0
    };
    (hyp as i64) + inner - rq
}

/// The signed distance at the canvas center is negative: minus half the
/// smaller canvas extent.
pub proof fn lemma_sdf_center_negative(w: int, h: int, rq: int)
    requires
        1 <= w,
        1 <= h,
        0 <= rq <= min(w, h) * 128,
    ensures
        spec_rrect_sdf(w * 128, h * 128, w, h, rq) == -min(w, h) * 128,
        spec_rrect_sdf(w * 128, h * 128, w, h, rq) < 0,
{
    let qx = abs(0) - w * 128 + rq;
    let qy = abs(0) - h * 128 + rq;
    assert(max(qx, 0) == 0 && max(qy, 0) == 0);
    assert(spec_isqrt(0) == 0);
    assert(min(max(qx, qy), 0) == rq - min(w, h) * 128);
}

/// A point on the canvas's left edge, level with the center, sits exactly
/// on the boundary: the distance is zero, so its magnitude is below one
/// pixel.
pub proof fn lemma_sdf_straight_edge_zero(w: int, h: int, rq: int)
    requires
        1 <= w,
        1 <= h,
        0 <= rq <= min(w, h) * 128,
    ensures
        spec_rrect_sdf(0, h * 128, w, h, rq) == 0,
{
    let qx = abs(0 - w * 128) - w * 128 + rq;
    let qy = abs(0) - h * 128 + rq;
    assert(qx == rq);
    assert(qy <= 0);
    assert(max(qx, 0) == rq && max(qy, 0) == 0);
    assert(rq * rq + 0 * 0 == rq * rq);
    lemma_isqrt_square(rq);
    assert(min(max(qx, qy), 0) == 0);
}

/// A point beyond the canvas's right edge, level with the center, has
/// strictly positive distance.
pub proof fn lemma_sdf_outside_positive(fx: int, w: int, h: int, rq: int)
    requires
        1 <= w,
        1 <= h,
        0 <= rq <= min(w, h) * 128,
        fx > w * 256,
    ensures
        spec_rrect_sdf(fx, h * 128, w, h, rq) == fx - w * 256,
        spec_rrect_sdf(fx, h * 128, w, h, rq) > 0,
{
    let qx = abs(fx - w * 128) - w * 128 + rq;
    let qy = abs(0) - h * 128 + rq;
    assert(abs(fx - w * 128) == fx - w * 128);
    assert(qx == fx - w * 256 + rq);
    assert(qy <= 0);
    assert(max(qx, 0) == qx && max(qy, 0) == 0);
    assert(qx * qx + 0 * 0 == qx * qx);
    lemma_isqrt_square(qx);
    assert(min(max(qx, qy), 0) == 0);
}

} // verus!
