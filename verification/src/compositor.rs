//! Porter-Duff "source over destination" alpha compositing on
//! unpremultiplied 8-bit channels, in exact integer arithmetic.
//!
//! A blend opacity is a fraction `n / ALPHA_ONE` with `0 <= n <= ALPHA_ONE`.
//! The denominator `ALPHA_ONE = 255 * SUBPX * SUBPX` is chosen so that every
//! opacity the engine uses is exactly representable: a coverage value in
//! `[0, SUBPX]` times a color's alpha byte over `255 * SUBPX`, an
//! anti-aliasing factor in `[0, SUBPX]` squared times an alpha byte, and so
//! on.

use vstd::arithmetic::div_mod::{
    lemma_div_is_ordered,
    lemma_fundamental_div_mod_converse,
};
use vstd::arithmetic::mul::{lemma_mul_nonnegative, lemma_mul_upper_bound};
use vstd::prelude::*;

use crate::color::Color;

verus! {

/// Denominator of every blend opacity: `255 * 256 * 256`.
pub const ALPHA_ONE: u64 = 255 * 256 * 256;

/// Integer division of `a` by `b` rounded to the nearest integer, halves
/// rounded up (`a >= 0`, `b > 0`).
pub open spec fn rdiv(a: int, b: int) -> int {
    (2 * a + b) / (2 * b)
}

/// Numerator (over `255 * ALPHA_ONE`) of the blended output alpha
/// `n/ALPHA_ONE + (da/255) * (1 - n/ALPHA_ONE)`.
pub open spec fn blended_alpha_num(da: int, n: int) -> int {
    255 * n + da * (ALPHA_ONE - n)
}

/// Blended output value of one color channel, as a byte: the source channel
/// at opacity `n/ALPHA_ONE` over the destination channel at the
/// destination's own alpha, renormalized by the output alpha and rounded to
/// the nearest byte.
pub open spec fn blend_channel(sc: int, dc: int, da: int, n: int) -> int {
    rdiv(255 * sc * n + dc * da * (ALPHA_ONE - n), blended_alpha_num(da, n))
}

/// Blended output alpha as a byte, rounded to nearest.
pub open spec fn blend_alpha(da: int, n: int) -> int {
    rdiv(blended_alpha_num(da, n), ALPHA_ONE as int)
}

/// The pixel that compositing `src` at opacity `n/ALPHA_ONE` over `dst`
/// leaves behind. A fully transparent result (`n == 0` and `dst.a == 0`)
/// leaves the destination unchanged.
pub open spec fn blend(dst: Color, src: Color, n: int) -> Color {
    if blended_alpha_num(dst.a as int, n) == 0 {
        dst
    } else {
        Color {
            r: blend_channel(src.r as int, dst.r as int, dst.a as int, n) as u8,
            g: blend_channel(src.g as int, dst.g as int, dst.a as int, n) as u8,
            b: blend_channel(src.b as int, dst.b as int, dst.a as int, n) as u8,
            a: blend_alpha(dst.a as int, n) as u8,
        }
    }
}

/// `rdiv(a, b)` lies in `[0, k]` whenever `0 <= a <= k * b`.
proof fn lemma_rdiv_bounds(a: int, b: int, k: int)
    requires
        b > 0,
        k >= 0,
        0 <= a <= k * b,
    ensures
        0 <= rdiv(a, b) <= k,
{
    assert(2 * a + b <= (2 * k + 1) * b) by (nonlinear_arith)
        requires a <= k * b;
    assert(((2 * k + 1) * b) / (2 * b) == k) by {
        assert((2 * k + 1) * b == k * (2 * b) + b) by (nonlinear_arith);
        lemma_fundamental_div_mod_converse((2 * k + 1) * b, 2 * b, k, b);
    }
    lemma_div_is_ordered(2 * a + b, (2 * k + 1) * b, 2 * b);
    assert(0 <= (2 * a + b) / (2 * b)) by (nonlinear_arith)
        requires a >= 0, b > 0;
}

/// `rdiv(c * b, b) == c`: a quotient that is exact stays exact under
/// round-to-nearest.
proof fn lemma_rdiv_exact(c: int, b: int)
    requires
        b > 0,
        c >= 0,
    ensures
        rdiv(c * b, b) == c,
{
    assert(2 * (c * b) + b == c * (2 * b) + b) by (nonlinear_arith);
    lemma_fundamental_div_mod_converse(c * (2 * b) + b, 2 * b, c, b);
}

/// The blended channel value is a byte whenever all inputs are bytes and
/// the opacity numerator is in range.
proof fn lemma_blend_channel_bounds(sc: int, dc: int, da: int, n: int)
    requires
        0 <= sc <= 255,
        0 <= dc <= 255,
        0 <= da <= 255,
        0 <= n <= ALPHA_ONE,
        blended_alpha_num(da, n) > 0,
    ensures
        0 <= blend_channel(sc, dc, da, n) <= 255,
        0 <= blend_alpha(da, n) <= 255,
{
    let big = blended_alpha_num(da, n);
    assert(255 * sc * n + dc * da * (ALPHA_ONE - n) <= 255 * big) by (nonlinear_arith)
        requires
            0 <= sc <= 255,
            0 <= dc <= 255,
            0 <= da <= 255,
            0 <= n <= ALPHA_ONE,
            big == 255 * n + da * (ALPHA_ONE - n);
    assert(0 <= 255 * sc * n + dc * da * (ALPHA_ONE - n)) by (nonlinear_arith)
        requires
            0 <= sc,
            0 <= dc,
            0 <= da,
            0 <= n <= ALPHA_ONE;
    lemma_rdiv_bounds(255 * sc * n + dc * da * (ALPHA_ONE - n), big, 255);
    assert(big <= 255 * ALPHA_ONE) by (nonlinear_arith)
        requires
            0 <= da <= 255,
            0 <= n <= ALPHA_ONE,
            big == 255 * n + da * (ALPHA_ONE - n);
    lemma_rdiv_bounds(big, ALPHA_ONE as int, 255);
}

/// Compositing with opacity 0 leaves the destination pixel unchanged.
pub proof fn lemma_blend_zero_is_noop(dst: Color, src: Color)
    ensures
        blend(dst, src, 0) == dst,
{
    let da = dst.a as int;
    if blended_alpha_num(da, 0) != 0 {
        assert(blended_alpha_num(da, 0) == da * (ALPHA_ONE as int));
        lemma_rdiv_exact(dst.r as int, da * (ALPHA_ONE as int));
        assert(dst.r as int * (da * (ALPHA_ONE as int)) == 255 * dst.r as int * 0 + dst.r as int
            * da * (ALPHA_ONE - 0)) by (nonlinear_arith);
        lemma_rdiv_exact(dst.g as int, da * (ALPHA_ONE as int));
        assert(dst.g as int * (da * (ALPHA_ONE as int)) == 255 * dst.g as int * 0 + dst.g as int
            * da * (ALPHA_ONE - 0)) by (nonlinear_arith);
        lemma_rdiv_exact(dst.b as int, da * (ALPHA_ONE as int));
        assert(dst.b as int * (da * (ALPHA_ONE as int)) == 255 * dst.b as int * 0 + dst.b as int
            * da * (ALPHA_ONE - 0)) by (nonlinear_arith);
        lemma_rdiv_exact(da, ALPHA_ONE as int);
    }
}

/// Compositing with full opacity replaces the destination: the output holds
/// the source channels at alpha 255.
pub proof fn lemma_blend_full_replaces(dst: Color, src: Color)
    ensures
        blend(dst, src, ALPHA_ONE as int) == (Color {
            r: src.r,
            g: src.g,
            b: src.b,
            a: 255u8,
        }),
        src.a == 255 ==> blend(dst, src, ALPHA_ONE as int) == src,
{
    let da = dst.a as int;
    let n = ALPHA_ONE as int;
    assert(blended_alpha_num(da, n) == 255 * n);
    lemma_rdiv_exact(src.r as int, 255 * n);
    assert(src.r as int * (255 * n) == 255 * src.r as int * n + dst.r as int * da * (n - n))
        by (nonlinear_arith);
    lemma_rdiv_exact(src.g as int, 255 * n);
    assert(src.g as int * (255 * n) == 255 * src.g as int * n + dst.g as int * da * (n - n))
        by (nonlinear_arith);
    lemma_rdiv_exact(src.b as int, 255 * n);
    assert(src.b as int * (255 * n) == 255 * src.b as int * n + dst.b as int * da * (n - n))
        by (nonlinear_arith);
    lemma_rdiv_exact(255, n);
}

/// Compositing onto a fully transparent destination yields the source
/// channels, at the alpha byte nearest to `255 * n / ALPHA_ONE`.
pub proof fn lemma_blend_onto_transparent(dst: Color, src: Color, n: int)
    requires
        dst.a == 0,
        0 < n <= ALPHA_ONE,
    ensures
        blend(dst, src, n) == (Color {
            r: src.r,
            g: src.g,
            b: src.b,
            a: rdiv(255 * n, ALPHA_ONE as int) as u8,
        }),
{
    assert(blended_alpha_num(0, n) == 255 * n);
    lemma_rdiv_exact(src.r as int, 255 * n);
    assert(src.r as int * (255 * n) == 255 * src.r as int * n + dst.r as int * 0 * (ALPHA_ONE - n))
        by (nonlinear_arith);
    lemma_rdiv_exact(src.g as int, 255 * n);
    assert(src.g as int * (255 * n) == 255 * src.g as int * n + dst.g as int * 0 * (ALPHA_ONE - n))
        by (nonlinear_arith);
    lemma_rdiv_exact(src.b as int, 255 * n);
    assert(src.b as int * (255 * n) == 255 * src.b as int * n + dst.b as int * 0 * (ALPHA_ONE - n))
        by (nonlinear_arith);
    assert(0 <= rdiv(255 * n, ALPHA_ONE as int) <= 255) by {
        assert(255 * n <= 255 * ALPHA_ONE) by (nonlinear_arith)
            requires n <= ALPHA_ONE;
        lemma_rdiv_bounds(255 * n, ALPHA_ONE as int, 255);
    }
}

/// Compositing a source at its own alpha onto a fully transparent
/// destination yields the source color at the source's own alpha (a
/// fully transparent source leaves the destination untouched).
pub proof fn lemma_blend_source_over_transparent(dst: Color, src: Color)
    requires
        dst.a == 0,
    ensures
        src.a > 0 ==> blend(dst, src, src.a as int * 65536) == (Color {
            r: src.r,
            g: src.g,
            b: src.b,
            a: src.a,
        }),
        src.a == 0 ==> blend(dst, src, src.a as int * 65536) == dst,
{
    let n = src.a as int * 65536;
    if src.a > 0 {
        lemma_blend_onto_transparent(dst, src, n);
        assert(255 * n == src.a as int * (ALPHA_ONE as int)) by (nonlinear_arith)
            requires n == src.a as int * 65536;
        lemma_rdiv_exact(src.a as int, ALPHA_ONE as int);
    }
}

/// Composite `src` over `dst` in place at opacity `alpha / ALPHA_ONE`.
///
/// A blend whose output alpha is zero (transparent source over transparent
/// destination) is a no-op, so the operation never divides by zero and
/// never fails.
pub fn composite_over(dst: &mut Color, src: Color, alpha: u64)
    requires
        alpha <= ALPHA_ONE,
    ensures
        *final(dst) == blend(*old(dst), src, alpha as int),
{
    let da: u64 = dst.a as u64;
    let n: u64 = alpha;
    proof {
        lemma_mul_upper_bound(da as int, 255, ALPHA_ONE - n, ALPHA_ONE as int);
    }
    let big: u64 = 255 * n + da * (ALPHA_ONE - n);
    if big == 0 {
        return ;
    }
    proof {
        lemma_blend_channel_bounds(src.r as int, dst.r as int, da as int, n as int);
        lemma_blend_channel_bounds(src.g as int, dst.g as int, da as int, n as int);
        lemma_blend_channel_bounds(src.b as int, dst.b as int, da as int, n as int);
    }
    let r = blend_channel_exec(src.r, dst.r, da, n, big);
    let g = blend_channel_exec(src.g, dst.g, da, n, big);
    let b = blend_channel_exec(src.b, dst.b, da, n, big);
    let a = ((2 * big + ALPHA_ONE) / (2 * ALPHA_ONE)) as u8;
    dst.r = r;
    dst.g = g;
    dst.b = b;
    dst.a = a;
}

/// One channel of the blend, in `u64` arithmetic that cannot overflow.
fn blend_channel_exec(sc: u8, dc: u8, da: u64, n: u64, big: u64) -> (r: u8)
    requires
        da <= 255,
        n <= ALPHA_ONE,
        big == blended_alpha_num(da as int, n as int),
        big > 0,
    ensures
        r as int == blend_channel(sc as int, dc as int, da as int, n as int),
{
    proof {
        lemma_mul_upper_bound(255 * (sc as int), (255 * 255) as int, n as int, ALPHA_ONE as int);
        lemma_mul_nonnegative(255 * (sc as int), n as int);
        lemma_mul_upper_bound(dc as int, 255, da as int, 255);
        lemma_mul_nonnegative(dc as int, da as int);
        lemma_mul_upper_bound(
            (dc as int) * (da as int),
            (255 * 255) as int,
            ALPHA_ONE - n as int,
            ALPHA_ONE as int,
        );
        lemma_mul_nonnegative((dc as int) * (da as int), ALPHA_ONE - n as int);
        lemma_mul_upper_bound(da as int, 255, ALPHA_ONE - n as int, ALPHA_ONE as int);
        lemma_blend_channel_bounds(sc as int, dc as int, da as int, n as int);
    }
    let numer: u64 = 255 * (sc as u64) * n + (dc as u64) * da * (ALPHA_ONE - n);
    (((2 * numer + big) / (2 * big)) as u8)
}

} // verus!
