//! Border styles and the per-pixel opacity each style paints.
//!
//! Opacities are numerators over [`crate::compositor::ALPHA_ONE`]: an
//! anti-aliasing factor in `[0, 256]` times a falloff or second
//! anti-aliasing factor in `[0, 256]` times the border color's alpha byte.

use vstd::arithmetic::div_mod::lemma_div_is_ordered;
use vstd::arithmetic::mul::{lemma_mul_inequality, lemma_mul_upper_bound};
use vstd::prelude::*;

use crate::color::Color;
use crate::geometry::{lemma_smoothstep_range, spec_rrect_sdf, spec_smoothstep};

verus! {

/// How to draw the rounded-rectangle frame around the canvas.
/// Lengths are in whole pixels.
#[derive(Debug, Clone, PartialEq, Eq, Structural)]
pub enum BorderStyle {
    /// No border.
    NoBorder,
    /// Solid rounded-rect stroke of the given thickness, corner radius and
    /// color.
    Solid { thickness: u32, radius: u32, color: Color },
    /// Vignette that fades from `color` at the canvas edge inward over
    /// `width` pixels, with a quadratic ease-out falloff. The color's alpha
    /// is the peak alpha at the very edge.
    Vignette { width: u32, radius: u32, color: Color },
}

impl Default for BorderStyle {
    /// The default border is no border.
    fn default() -> (s: Self)
        ensures
            s == BorderStyle::NoBorder,
    {
        Self::NoBorder
    }
}

/// Anti-aliasing factor of the shape's outer edge at signed distance
/// `dist`: one (256) from the boundary inward, fading to zero across one
/// pixel outside. This is the classic `smoothstep(1, 0, dist)` with the
/// edges reversed.
pub open spec fn outer_edge_aa(dist: int) -> int {
    256 - spec_smoothstep(0, 256, dist)
}

/// Opacity numerator painted by a solid border of thickness `tq` (in
/// `SUBPX` units) and alpha byte `a` at signed distance `dist`: the band
/// between the outer edge and `tq` inward, with a one-pixel anti-aliased
/// transition on each side.
pub open spec fn solid_alpha(dist: int, tq: int, a: int) -> int {
    outer_edge_aa(dist) * spec_smoothstep(-tq - 256, -tq, dist) * a
}

/// Opacity numerator painted by a vignette of width `wq` (in `SUBPX`
/// units) and peak alpha byte `a` at signed distance `dist`: the peak
/// alpha at the boundary, falling off quadratically to zero at `wq`
/// inward, zero beyond, with the outer edge anti-aliased like the solid
/// border.
pub open spec fn vignette_alpha(dist: int, wq: int, a: int) -> int {
    if dist >= 256 || -dist > wq {
        0
    } else {
        let tau = if dist >= 0 {
            0
        } else {
            (-dist) * 256 / wq
        };
        outer_edge_aa(dist) * ((256 - tau) * (256 - tau) / 256) * a
    }
}

/// Length bounds under which a border can be rendered without overflowing
/// the engine's fixed-point arithmetic.
pub open spec fn style_wf(style: BorderStyle) -> bool {
    match style {
        BorderStyle::NoBorder => true,
        BorderStyle::Solid { thickness, radius, color } => thickness <= 65535 && radius <= 65535,
        BorderStyle::Vignette { width, radius, color } => 1 <= width <= 65535 && radius
            <= 65535,
    }
}

/// The color a border style paints with (irrelevant for no border, which
/// paints at opacity zero everywhere).
pub open spec fn border_color(style: BorderStyle) -> Color {
    match style {
        BorderStyle::NoBorder => Color { r: 0, g: 0, b: 0, a: 0 },
        BorderStyle::Solid { thickness, radius, color } => color,
        BorderStyle::Vignette { width, radius, color } => color,
    }
}

/// Opacity numerator a border style paints onto the pixel at column `x`,
/// row `y` of a `w` by `h` canvas: the style's per-distance opacity,
/// evaluated at the signed distance of the pixel's center.
pub open spec fn border_alpha(style: BorderStyle, x: int, y: int, w: int, h: int) -> int {
    match style {
        BorderStyle::NoBorder => 0,
        BorderStyle::Solid { thickness, radius, color } => solid_alpha(
            spec_rrect_sdf(x * 256 + 128, y * 256 + 128, w, h, radius * 256),
            thickness * 256,
            color.a as int,
        ),
        BorderStyle::Vignette { width, radius, color } => vignette_alpha(
            spec_rrect_sdf(x * 256 + 128, y * 256 + 128, w, h, radius * 256),
            width * 256,
            color.a as int,
        ),
    }
}

/// The solid border's opacity stays within `[0, ALPHA_ONE]`; it is the
/// full color alpha everywhere in the band `[-tq, 0]`, and zero from one
/// pixel outside the boundary outward and from one pixel inside the inner
/// edge inward.
pub proof fn lemma_solid_alpha_band(dist: int, tq: int, a: int)
    requires
        tq >= 0,
        0 <= a <= 255,
    ensures
        0 <= solid_alpha(dist, tq, a) <= 255 * 256 * 256,
        -tq <= dist <= 0 ==> solid_alpha(dist, tq, a) == 256 * 256 * a,
        dist >= 256 ==> solid_alpha(dist, tq, a) == 0,
        dist <= -tq - 256 ==> solid_alpha(dist, tq, a) == 0,
        solid_alpha(dist, tq, a) > 0 ==> -tq - 256 < dist < 256,
{
    lemma_smoothstep_range(0, 256, dist);
    lemma_smoothstep_range(-tq - 256, -tq, dist);
    let outer = outer_edge_aa(dist);
    let inner = spec_smoothstep(-tq - 256, -tq, dist);
    lemma_mul_upper_bound(outer, 256, inner, 256);
    lemma_mul_inequality(outer * inner, 65536int, a);
    assert(outer * inner >= 0) by (nonlinear_arith)
        requires outer >= 0, inner >= 0;
    assert(outer * inner * a >= 0) by (nonlinear_arith)
        requires outer * inner >= 0, a >= 0;
    assert(outer * inner * a <= 256 * 256 * a ==> outer * inner * a <= 255 * 256 * 256)
        by (nonlinear_arith)
        requires a <= 255;
    if dist >= 256 {
        assert(outer * inner * a == 0) by (nonlinear_arith)
            requires outer == 0;
    }
    if dist <= -tq - 256 {
        assert(outer * inner * a == 0) by (nonlinear_arith)
            requires inner == 0;
    }
}

/// The vignette's opacity stays within `[0, ALPHA_ONE]`; it is zero
/// strictly more than `wq` inside the boundary, and the full peak alpha
/// exactly on the boundary.
pub proof fn lemma_vignette_alpha_range(dist: int, wq: int, a: int)
    requires
        wq >= 1,
        0 <= a <= 255,
    ensures
        0 <= vignette_alpha(dist, wq, a) <= 255 * 256 * 256,
        -dist > wq ==> vignette_alpha(dist, wq, a) == 0,
        dist == 0 ==> vignette_alpha(dist, wq, a) == 256 * 256 * a,
{
    lemma_smoothstep_range(0, 256, dist);
    if !(dist >= 256 || -dist > wq) {
        let tau = if dist >= 0 {
            0
        } else {
            (-dist) * 256 / wq
        };
        assert(0 <= tau <= 256) by {
            if dist < 0 {
                assert((-dist) * 256 >= 0) by (nonlinear_arith)
                    requires dist < 0;
                lemma_div_is_ordered(0, (-dist) * 256, wq);
                assert((-dist) * 256 <= wq * 256) by (nonlinear_arith)
                    requires -dist <= wq;
                lemma_div_is_ordered((-dist) * 256, wq * 256, wq);
                vstd::arithmetic::div_mod::lemma_div_multiples_vanish(256, wq);
            }
        }
        let fall = (256 - tau) * (256 - tau) / 256;
        assert(0 <= fall <= 256) by {
            assert(0 <= (256 - tau) * (256 - tau) <= 256 * 256) by (nonlinear_arith)
                requires 0 <= tau <= 256;
            lemma_div_is_ordered(0, (256 - tau) * (256 - tau), 256);
            lemma_div_is_ordered((256 - tau) * (256 - tau), 65536int, 256);
        }
        let outer = outer_edge_aa(dist);
        lemma_mul_upper_bound(outer, 256, fall, 256);
        lemma_mul_inequality(outer * fall, 65536int, a);
        assert(outer * fall >= 0) by (nonlinear_arith)
            requires outer >= 0, fall >= 0;
        assert(outer * fall * a >= 0) by (nonlinear_arith)
            requires outer * fall >= 0, a >= 0;
        assert(outer * fall * a <= 256 * 256 * a ==> outer * fall * a <= 255 * 256 * 256)
            by (nonlinear_arith)
            requires a <= 255;
        if dist == 0 {
            assert(fall == 256);
            assert(outer == 256);
        }
    }
}

/// Within the canvas interior the vignette fades monotonically: the deeper
/// inside the boundary (the larger the inset `-dist`), the smaller the
/// painted opacity.
pub proof fn lemma_vignette_monotone(d1: int, d2: int, wq: int, a: int)
    requires
        wq >= 1,
        0 <= a <= 255,
        d2 <= d1 <= 0,
    ensures
        vignette_alpha(d2, wq, a) <= vignette_alpha(d1, wq, a),
{
    lemma_vignette_alpha_range(d1, wq, a);
    lemma_vignette_alpha_range(d2, wq, a);
    lemma_smoothstep_range(0, 256, d1);
    lemma_smoothstep_range(0, 256, d2);
    if -d2 <= wq {
        let tau1 = if d1 >= 0 {
            0
        } else {
            (-d1) * 256 / wq
        };
        let tau2 = if d2 >= 0 {
            0
        } else {
            (-d2) * 256 / wq
        };
        assert(tau1 <= tau2) by {
            if d2 < 0 {
                assert((-d1) * 256 <= (-d2) * 256) by (nonlinear_arith)
                    requires d2 <= d1;
                if d1 < 0 {
                    lemma_div_is_ordered((-d1) * 256, (-d2) * 256, wq);
                } else {
                    assert((-d2) * 256 >= 0) by (nonlinear_arith)
                        requires d2 < 0;
                    lemma_div_is_ordered(0, (-d2) * 256, wq);
                }
            }
        }
        assert(0 <= tau1 <= 256 && tau1 <= tau2 <= 256) by {
            if d1 < 0 {
                assert((-d1) * 256 >= 0) by (nonlinear_arith)
                    requires d1 < 0;
                lemma_div_is_ordered(0, (-d1) * 256, wq);
            }
            if d2 < 0 {
                assert((-d2) * 256 <= wq * 256) by (nonlinear_arith)
                    requires -d2 <= wq;
                lemma_div_is_ordered((-d2) * 256, wq * 256, wq);
                vstd::arithmetic::div_mod::lemma_div_multiples_vanish(256, wq);
            }
        }
        let f1 = (256 - tau1) * (256 - tau1) / 256;
        let f2 = (256 - tau2) * (256 - tau2) / 256;
        assert((256 - tau2) * (256 - tau2) <= (256 - tau1) * (256 - tau1)) by (nonlinear_arith)
            requires 0 <= tau1 <= tau2 <= 256;
        lemma_div_is_ordered((256 - tau2) * (256 - tau2), (256 - tau1) * (256 - tau1), 256);
        assert(256 * f2 * a <= 256 * f1 * a) by (nonlinear_arith)
            requires f2 <= f1, a >= 0;
    }
}

} // verus!
