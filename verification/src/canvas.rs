//! An RGBA canvas for compositing fills, separator lines and border
//! effects, modeled as a flat row-major pixel buffer.

use vstd::arithmetic::div_mod::lemma_fundamental_div_mod_converse;
use vstd::prelude::*;

use crate::border::{
    border_alpha,
    border_color,
    lemma_solid_alpha_band,
    lemma_vignette_alpha_range,
    style_wf,
    BorderStyle,
};
use crate::color::Color;
use crate::compositor::{blend, composite_over, ALPHA_ONE};
use crate::layout::{is_space, is_whitespace_char};
use crate::geometry::{rrect_sdf, smoothstep};
use crate::output::RenderedImage;

verus! {

/// A pixel at column `x`, row `y` of a `w`-wide grid sits at a flat index
/// inside the buffer.
pub proof fn lemma_grid_in_range(x: int, y: int, w: int, h: int)
    requires
        0 <= x < w,
        0 <= y < h,
    ensures
        0 <= y * w + x < w * h,
{
    assert(0 <= y * w + x < w * h) by (nonlinear_arith)
        requires
            0 <= x < w,
            0 <= y < h;
}

/// The flat index `y * w + x` decomposes back into row `y` and column `x`.
pub proof fn lemma_grid_decompose(x: int, y: int, w: int)
    requires
        0 <= x < w,
        0 <= y,
    ensures
        (y * w + x) / w == y,
        (y * w + x) % w == x,
{
    lemma_fundamental_div_mod_converse(y * w + x, w, y, x);
}

/// An RGBA canvas in its mutable, building state.
///
/// Create with [`Canvas::new`], [`Canvas::key_icon`] or
/// [`Canvas::key_icon_standard`], composite content with the drawing
/// methods in any order (later calls layer over earlier results), then
/// consume it with [`Canvas::finish`] to obtain the immutable
/// [`RenderedImage`].
pub struct Canvas {
    width: u32,
    height: u32,
    pixels: Vec<Color>,
}

impl View for Canvas {
    type V = Seq<Color>;

    /// The canvas's pixels, row-major: the pixel at column `x`, row `y`
    /// is element `y * width + x`.
    closed spec fn view(&self) -> Seq<Color> {
        self.pixels@
    }
}

impl Canvas {
    /// Canvas width in pixels.
    pub closed spec fn spec_width(&self) -> u32 {
        self.width
    }

    /// Canvas height in pixels.
    pub closed spec fn spec_height(&self) -> u32 {
        self.height
    }

    /// The buffer holds exactly one pixel per grid cell, and both extents
    /// stay within the fixed-point geometry's working range.
    pub open spec fn wf(&self) -> bool {
        self@.len() == self.spec_width() * self.spec_height() && self.spec_width() <= 65535
            && self.spec_height() <= 65535
    }

    /// Create a new, fully transparent canvas of the given dimensions.
    pub fn new(width: u32, height: u32) -> (c: Canvas)
        requires
            width <= 65535,
            height <= 65535,
        ensures
            c.wf(),
            c.spec_width() == width,
            c.spec_height() == height,
            forall|i: int| 0 <= i < c@.len() ==> c@[i] == (Color { r: 0, g: 0, b: 0, a: 0 }),
    {
        proof {
            assert(width as int * height as int <= 65535 * 65535) by (nonlinear_arith)
                requires
                    width <= 65535,
                    height <= 65535;
        }
        let n: usize = (width as usize) * (height as usize);
        let mut pixels: Vec<Color> = Vec::new();
        while pixels.len() < n
            invariant
                pixels@.len() <= n,
                forall|i: int|
                    0 <= i < pixels@.len() ==> pixels@[i] == (Color { r: 0, g: 0, b: 0, a: 0 }),
            decreases n - pixels@.len(),
        {
            pixels.push(Color { r: 0, g: 0, b: 0, a: 0 });
        }
        Canvas { width, height, pixels }
    }

    /// 144 x 144 high-DPI Stream Deck key icon.
    pub fn key_icon() -> (c: Canvas)
        ensures
            c.wf(),
            c.spec_width() == 144,
            c.spec_height() == 144,
            forall|i: int| 0 <= i < c@.len() ==> c@[i] == (Color { r: 0, g: 0, b: 0, a: 0 }),
    {
        Self::new(144, 144)
    }

    /// 72 x 72 standard Stream Deck key icon.
    pub fn key_icon_standard() -> (c: Canvas)
        ensures
            c.wf(),
            c.spec_width() == 72,
            c.spec_height() == 72,
            forall|i: int| 0 <= i < c@.len() ==> c@[i] == (Color { r: 0, g: 0, b: 0, a: 0 }),
    {
        Self::new(72, 72)
    }

    /// Canvas width in pixels.
    pub fn width(&self) -> (w: u32)
        ensures
            w == self.spec_width(),
    {
        self.width
    }

    /// Canvas height in pixels.
    pub fn height(&self) -> (h: u32)
        ensures
            h == self.spec_height(),
    {
        self.height
    }

    /// Fill the entire canvas with a solid color, replacing every pixel.
    ///
    /// Use a fully transparent color to reset the canvas.
    pub fn fill(&mut self, color: Color)
        requires
            old(self).wf(),
        ensures
            final(self).wf(),
            final(self).spec_width() == old(self).spec_width(),
            final(self).spec_height() == old(self).spec_height(),
            final(self)@.len() == old(self)@.len(),
            forall|i: int| 0 <= i < final(self)@.len() ==> final(self)@[i] == color,
    {
        let n: usize = self.pixels.len();
        let mut i: usize = 0;
        while i < n
            invariant
                n == self@.len(),
                i <= n,
                self.spec_width() == old(self).spec_width(),
                self.spec_height() == old(self).spec_height(),
                forall|j: int| 0 <= j < i ==> self@[j] == color,
            decreases n - i,
        {
            self.pixels.set(i, color);
            i = i + 1;
        }
    }

    /// Composite a one-pixel-high horizontal line across the full canvas
    /// width at row `y`, at the color's own alpha. A row outside the
    /// canvas leaves it unchanged.
    pub fn draw_horizontal_line(&mut self, y: u32, color: Color)
        requires
            old(self).wf(),
        ensures
            final(self).wf(),
            final(self).spec_width() == old(self).spec_width(),
            final(self).spec_height() == old(self).spec_height(),
            final(self)@.len() == old(self)@.len(),
            y >= old(self).spec_height() ==> final(self)@ == old(self)@,
            y < old(self).spec_height() ==> forall|i: int|
                y * old(self).spec_width() <= i < y * old(self).spec_width() + old(
                    self,
                ).spec_width() ==> final(self)@[i] == blend(
                    old(self)@[i],
                    color,
                    color.a as int * 65536,
                ),
            y < old(self).spec_height() ==> forall|i: int|
                0 <= i < old(self)@.len() && !(y * old(self).spec_width() <= i < y * old(
                    self,
                ).spec_width() + old(self).spec_width()) ==> final(self)@[i] == old(self)@[i],
    {
        if y >= self.height {
            return ;
        }
        let w: usize = self.width as usize;
        proof {
            assert((y as int) * (w as int) + (w as int) <= (w as int) * (self.spec_height()
                as int)) by (nonlinear_arith)
                requires y < self.spec_height(), w >= 0;
            assert((w as int) * (self.spec_height() as int) == (self.spec_width()
                as int) * (self.spec_height() as int));
        }
        let n_px: usize = self.pixels.len();
        let base: usize = (y as usize) * w;
        let mut x: usize = 0;
        while x < w
            invariant
                old(self).wf(),
                self@.len() == old(self)@.len(),
                self.spec_width() == old(self).spec_width(),
                self.spec_height() == old(self).spec_height(),
                w == self.spec_width(),
                y < self.spec_height(),
                base == y * self.spec_width(),
                n_px == self@.len(),
                base + w <= n_px,
                x <= w,
                forall|i: int| base <= i < base + x ==> self@[i] == blend(
                    old(self)@[i],
                    color,
                    color.a as int * 65536,
                ),
                forall|i: int|
                    0 <= i < self@.len() && !(base <= i < base + x) ==> self@[i] == old(self)@[i],
            decreases w - x,
        {
            let idx: usize = base + x;
            let mut px: Color = self.pixels[idx];
            composite_over(&mut px, color, (color.a as u64) * 65536);
            self.pixels.set(idx, px);
            x = x + 1;
        }
    }

    /// Composite a border effect over the whole canvas: every pixel is
    /// blended with the style's color at the opacity the style assigns to
    /// that pixel's center (zero opacity for no border, which leaves every
    /// pixel unchanged).
    pub fn draw_border(&mut self, style: &BorderStyle)
        requires
            old(self).wf(),
            style_wf(*style),
        ensures
            final(self).wf(),
            final(self).spec_width() == old(self).spec_width(),
            final(self).spec_height() == old(self).spec_height(),
            final(self)@.len() == old(self)@.len(),
            forall|i: int| 0 <= i < old(self)@.len() ==> final(self)@[i] == blend(
                old(self)@[i],
                border_color(*style),
                border_alpha(
                    *style,
                    i % (old(self).spec_width() as int),
                    i / (old(self).spec_width() as int),
                    old(self).spec_width() as int,
                    old(self).spec_height() as int,
                ),
            ),
    {
        let w: u32 = self.width;
        let h: u32 = self.height;
        let color: Color = style_color(style);
        let n_px: usize = self.pixels.len();
        let mut y: u32 = 0;
        let mut idx: usize = 0;
        while y < h
            invariant
                old(self).wf(),
                style_wf(*style),
                self@.len() == old(self)@.len(),
                self.spec_width() == old(self).spec_width(),
                self.spec_height() == old(self).spec_height(),
                w == self.spec_width(),
                h == self.spec_height(),
                color == border_color(*style),
                y <= h,
                idx == y * w,
                n_px == self@.len(),
                idx <= n_px,
                forall|i: int| 0 <= i < idx ==> self@[i] == blend(
                    old(self)@[i],
                    border_color(*style),
                    border_alpha(*style, i % (w as int), i / (w as int), w as int, h as int),
                ),
                forall|i: int| idx <= i < self@.len() ==> self@[i] == old(self)@[i],
            decreases h - y,
        {
            proof {
                assert((y + 1) * (w as int) == y * w + w) by (nonlinear_arith);
                assert((y + 1) * (w as int) <= (h as int) * (w as int)) by (nonlinear_arith)
                    requires y + 1 <= h, w >= 0;
                assert((h as int) * (w as int) == (w as int) * (h as int)) by (nonlinear_arith);
            }
            let mut x: u32 = 0;
            while x < w
                invariant
                    old(self).wf(),
                    style_wf(*style),
                    self@.len() == old(self)@.len(),
                    self.spec_width() == old(self).spec_width(),
                    self.spec_height() == old(self).spec_height(),
                    w == self.spec_width(),
                    h == self.spec_height(),
                    color == border_color(*style),
                    y < h,
                    x <= w,
                    idx == y * w + x,
                    n_px == self@.len(),
                    y * w + w <= n_px,
                    forall|i: int| 0 <= i < idx ==> self@[i] == blend(
                        old(self)@[i],
                        border_color(*style),
                        border_alpha(*style, i % (w as int), i / (w as int), w as int, h as int),
                    ),
                    forall|i: int| idx <= i < self@.len() ==> self@[i] == old(self)@[i],
                decreases w - x,
            {
                let n: u64 = border_alpha_at(style, x, y, w, h);
                let ghost prev = self@;
                let mut px: Color = self.pixels[idx];
                composite_over(&mut px, color, n);
                self.pixels.set(idx, px);
                proof {
                    lemma_grid_decompose(x as int, y as int, w as int);
                }
                idx = idx + 1;
                x = x + 1;
            }
            y = y + 1;
        }
        proof {
            assert((h as int) * (w as int) == (w as int) * (h as int)) by (nonlinear_arith);
        }
    }

    /// Composite one glyph's coverage bitmap onto the canvas: `gw` by
    /// `gh` coverage cells (each in `[0, 256]`, 256 meaning full
    /// coverage) anchored with their top-left cell at pixel
    /// `(gx, gy)`. Each covered canvas pixel is blended with the text
    /// color at coverage times the color's own alpha; cells outside the
    /// canvas are silently clipped.
    pub fn blit_glyph(&mut self, gx: i64, gy: i64, gw: u32, gh: u32, cov: &Vec<u16>, color: Color)
        requires
            old(self).wf(),
            gw <= 65535,
            gh <= 65535,
            -0x100000000 <= gx <= 0x100000000,
            -0x100000000 <= gy <= 0x100000000,
            cov@.len() == gw * gh,
            forall|j: int| 0 <= j < cov@.len() ==> #[trigger] cov@[j] <= 256,
        ensures
            final(self).wf(),
            final(self).spec_width() == old(self).spec_width(),
            final(self).spec_height() == old(self).spec_height(),
            final(self)@.len() == old(self)@.len(),
            forall|i: int| 0 <= i < old(self)@.len() ==> final(self)@[i] == blend(
                old(self)@[i],
                color,
                glyph_alpha(
                    cov@,
                    color.a as int,
                    gx as int,
                    gy as int,
                    gw as int,
                    gh as int,
                    i % (old(self).spec_width() as int),
                    i / (old(self).spec_width() as int),
                ),
            ),
    {
        let w: u32 = self.width;
        let h: u32 = self.height;
        let n_px: usize = self.pixels.len();
        let mut dy: u32 = 0;
        while dy < gh
            invariant
                old(self).wf(),
                self@.len() == old(self)@.len(),
                self.spec_width() == old(self).spec_width(),
                self.spec_height() == old(self).spec_height(),
                w == self.spec_width(),
                h == self.spec_height(),
                n_px == self@.len(),
                gw <= 65535,
                gh <= 65535,
                -0x100000000 <= gx <= 0x100000000,
                -0x100000000 <= gy <= 0x100000000,
                cov@.len() == gw * gh,
                forall|j: int| 0 <= j < cov@.len() ==> #[trigger] cov@[j] <= 256,
                dy <= gh,
                forall|i: int| 0 <= i < n_px ==> self@[i] == (if blit_done(
                    gx as int,
                    gy as int,
                    gw as int,
                    gh as int,
                    dy as int,
                    0,
                    w as int,
                    i,
                ) {
                    blend(
                        old(self)@[i],
                        color,
                        glyph_alpha(
                            cov@,
                            color.a as int,
                            gx as int,
                            gy as int,
                            gw as int,
                            gh as int,
                            i % (w as int),
                            i / (w as int),
                        ),
                    )
                } else {
                    old(self)@[i]
                }),
            decreases gh - dy,
        {
            let mut dx: u32 = 0;
            while dx < gw
                invariant
                    old(self).wf(),
                    self@.len() == old(self)@.len(),
                    self.spec_width() == old(self).spec_width(),
                    self.spec_height() == old(self).spec_height(),
                    w == self.spec_width(),
                    h == self.spec_height(),
                    n_px == self@.len(),
                    gw <= 65535,
                    gh <= 65535,
                    -0x100000000 <= gx <= 0x100000000,
                    -0x100000000 <= gy <= 0x100000000,
                    cov@.len() == gw * gh,
                    forall|j: int| 0 <= j < cov@.len() ==> #[trigger] cov@[j] <= 256,
                    dy < gh,
                    dx <= gw,
                    forall|i: int| 0 <= i < n_px ==> self@[i] == (if blit_done(
                        gx as int,
                        gy as int,
                        gw as int,
                        gh as int,
                        dy as int,
                        dx as int,
                        w as int,
                        i,
                    ) {
                        blend(
                            old(self)@[i],
                            color,
                            glyph_alpha(
                                cov@,
                                color.a as int,
                                gx as int,
                                gy as int,
                                gw as int,
                                gh as int,
                                i % (w as int),
                                i / (w as int),
                            ),
                        )
                    } else {
                        old(self)@[i]
                    }),
                decreases gw - dx,
            {
                let ghost prev = self@;
                let px_i: i64 = gx + dx as i64;
                let py_i: i64 = gy + dy as i64;
                if 0 <= px_i && px_i < w as i64 && 0 <= py_i && py_i < h as i64 {
                    proof {
                        lemma_grid_in_range(dx as int, dy as int, gw as int, gh as int);
                        assert(gw as int * gh as int <= 65535 * 65535) by (nonlinear_arith)
                            requires
                                gw <= 65535,
                                gh <= 65535;
                        lemma_grid_in_range(px_i as int, py_i as int, w as int, h as int);
                        assert(w as int * h as int <= 65535 * 65535) by (nonlinear_arith)
                            requires
                                w <= 65535,
                                h <= 65535;
                    }
                    let cidx: usize = (dy as usize) * (gw as usize) + (dx as usize);
                    let cv: u16 = cov[cidx];
                    proof {
                        assert(cv as int * (color.a as int) * 256 <= 255 * 256 * 256
                            && cv as int * (color.a as int) * 256 >= 0) by (nonlinear_arith)
                            requires
                                0 <= cv <= 256,
                                0 <= color.a <= 255;
                    }
                    let n_alpha: u64 = (cv as u64) * (color.a as u64) * 256;
                    let idx: usize = (py_i as usize) * (w as usize) + (px_i as usize);
                    let mut px: Color = self.pixels[idx];
                    composite_over(&mut px, color, n_alpha);
                    self.pixels.set(idx, px);
                    proof {
                        lemma_grid_decompose(px_i as int, py_i as int, w as int);
                        assert(self@[idx as int] == blend(
                            old(self)@[idx as int],
                            color,
                            glyph_alpha(
                                cov@,
                                color.a as int,
                                gx as int,
                                gy as int,
                                gw as int,
                                gh as int,
                                idx as int % (w as int),
                                idx as int / (w as int),
                            ),
                        ));
                    }
                }
                proof {
                    assert forall|i: int| 0 <= i < n_px implies self@[i] == (if blit_done(
                        gx as int,
                        gy as int,
                        gw as int,
                        gh as int,
                        dy as int,
                        dx as int + 1,
                        w as int,
                        i,
                    ) {
                        blend(
                            old(self)@[i],
                            color,
                            glyph_alpha(
                                cov@,
                                color.a as int,
                                gx as int,
                                gy as int,
                                gw as int,
                                gh as int,
                                i % (w as int),
                                i / (w as int),
                            ),
                        )
                    } else {
                        old(self)@[i]
                    }) by {
                        assert(w as int > 0 && h as int > 0) by (nonlinear_arith)
                            requires
                                0 <= i < w as int * h as int,
                                w >= 0,
                                h >= 0;
                        vstd::arithmetic::div_mod::lemma_mod_division_less_than_divisor(
                            i,
                            w as int,
                        );
                        vstd::arithmetic::div_mod::lemma_div_pos_is_pos(i, w as int);
                        vstd::arithmetic::div_mod::lemma_multiply_divide_lt(i, w as int, h as int);
                        assert(w as int * (h as int) == (w * h) as int);
                        vstd::arithmetic::div_mod::lemma_fundamental_div_mod(i, w as int);
                        assert((w as int) * (i / (w as int)) == (i / (w as int)) * (w as int))
                            by (nonlinear_arith);
                    }
                }
                dx = dx + 1;
            }
            dy = dy + 1;
        }
        proof {
            assert forall|i: int| 0 <= i < n_px implies self@[i] == blend(
                old(self)@[i],
                color,
                glyph_alpha(
                    cov@,
                    color.a as int,
                    gx as int,
                    gy as int,
                    gw as int,
                    gh as int,
                    i % (w as int),
                    i / (w as int),
                ),
            ) by {
                assert(w as int > 0 && h as int > 0) by (nonlinear_arith)
                    requires
                        0 <= i < w as int * h as int,
                        w >= 0,
                        h >= 0;
                vstd::arithmetic::div_mod::lemma_mod_division_less_than_divisor(i, w as int);
                vstd::arithmetic::div_mod::lemma_div_pos_is_pos(i, w as int);
                vstd::arithmetic::div_mod::lemma_multiply_divide_lt(i, w as int, h as int);
                assert(w as int * (h as int) == (w * h) as int);
                if !blit_done(
                    gx as int,
                    gy as int,
                    gw as int,
                    gh as int,
                    gh as int,
                    0,
                    w as int,
                    i,
                ) {
                    crate::compositor::lemma_blend_zero_is_noop(old(self)@[i], color);
                }
            }
        }
    }

    /// Consume the canvas: the one-way transition from the mutable
    /// building state to the immutable rendered image that owns the same
    /// pixel buffer.
    pub fn finish(self) -> (img: RenderedImage)
        requires
            self.wf(),
        ensures
            img.wf(),
            img@ == self@,
            img.spec_width() == self.spec_width(),
            img.spec_height() == self.spec_height(),
    {
        RenderedImage::from_parts(self.width, self.height, self.pixels)
    }
}

/// Opacity painted at canvas pixel `(x, y)` by a glyph coverage bitmap of
/// `gw` by `gh` cells anchored at `(gx, gy)`: the cell's coverage (in
/// `[0, 256]`) times the text color's alpha byte, over `ALPHA_ONE`; zero
/// outside the bitmap.
pub open spec fn glyph_alpha(
    cov: Seq<u16>,
    a: int,
    gx: int,
    gy: int,
    gw: int,
    gh: int,
    x: int,
    y: int,
) -> int {
    if gx <= x < gx + gw && gy <= y < gy + gh {
        (cov[(y - gy) * gw + (x - gx)] as int) * a * 256
    } else {
        0
    }
}

/// Whether the glyph cell covering canvas index `i` has already been
/// processed, walking the bitmap row-major up to row `dy`, column `dx`.
spec fn blit_done(gx: int, gy: int, gw: int, gh: int, dy: int, dx: int, w: int, i: int) -> bool {
    let x = i % w;
    let y = i / w;
    gx <= x < gx + gw && gy <= y < gy + gh && ((y - gy) < dy || ((y - gy) == dy && (x - gx)
        < dx))
}

/// The color a border style paints with.
fn style_color(style: &BorderStyle) -> (c: Color)
    ensures
        c == border_color(*style),
{
    match style {
        BorderStyle::NoBorder => Color { r: 0, g: 0, b: 0, a: 0 },
        BorderStyle::Solid { thickness: _, radius: _, color } => *color,
        BorderStyle::Vignette { width: _, radius: _, color } => *color,
    }
}

/// The opacity numerator a border style paints onto the pixel at column
/// `x`, row `y`: the style's per-distance opacity at the signed distance
/// of the pixel's center `(x + 1/2, y + 1/2)`.
fn border_alpha_at(style: &BorderStyle, x: u32, y: u32, w: u32, h: u32) -> (n: u64)
    requires
        style_wf(*style),
        x < w <= 65535,
        y < h <= 65535,
    ensures
        n as int == border_alpha(*style, x as int, y as int, w as int, h as int),
        n <= ALPHA_ONE,
{
    match style {
        BorderStyle::NoBorder => 0,
        BorderStyle::Solid { thickness, radius, color } => {
            let fx: i64 = (x as i64) * 256 + 128;
            let fy: i64 = (y as i64) * 256 + 128;
            let dist: i64 = rrect_sdf(fx, fy, w, h, (*radius as i64) * 256);
            let tq: i64 = (*thickness as i64) * 256;
            let outer: i64 = 256 - smoothstep(0, 256, dist);
            let inner: i64 = smoothstep(-tq - 256, -tq, dist);
            proof {
                lemma_solid_alpha_band(dist as int, tq as int, color.a as int);
                assert(outer as int * inner as int <= 65536 && outer as int * inner as int >= 0)
                    by (nonlinear_arith)
                    requires
                        0 <= outer <= 256,
                        0 <= inner <= 256;
                assert(outer as int * inner as int * (color.a as int) <= 255 * 256 * 256
                    && outer as int * inner as int * (color.a as int) >= 0) by (nonlinear_arith)
                    requires
                        0 <= outer as int * inner as int <= 65536,
                        0 <= color.a <= 255;
            }
            (outer as u64) * (inner as u64) * (color.a as u64)
        },
        BorderStyle::Vignette { width, radius, color } => {
            let fx: i64 = (x as i64) * 256 + 128;
            let fy: i64 = (y as i64) * 256 + 128;
            let dist: i64 = rrect_sdf(fx, fy, w, h, (*radius as i64) * 256);
            let wq: i64 = (*width as i64) * 256;
            proof {
                lemma_vignette_alpha_range(dist as int, wq as int, color.a as int);
            }
            if dist >= 256 || -dist > wq {
                0
            } else {
                let tau: i64 = if dist >= 0 {
                    0
                } else {
                    let num: u64 = ((-dist) as u64) * 256;
                    proof {
                        assert(num as int <= wq as int * 256) by (nonlinear_arith)
                            requires
                                0 < -dist <= wq,
                                num == (-dist) as int * 256;
                        vstd::arithmetic::div_mod::lemma_div_is_ordered(
                            num as int,
                            wq as int * 256,
                            wq as int,
                        );
                        vstd::arithmetic::div_mod::lemma_div_multiples_vanish(256, wq as int);
                        vstd::arithmetic::div_mod::lemma_div_is_ordered(0, num as int, wq as int);
                    }
                    (num / (wq as u64)) as i64
                };
                proof {
                    assert((256 - tau) * (256 - tau) <= 65536 && 0 <= (256 - tau) * (256 - tau))
                        by (nonlinear_arith)
                        requires 0 <= tau <= 256;
                }
                let fall: i64 = (256 - tau) * (256 - tau) / 256;
                let outer: i64 = 256 - smoothstep(0, 256, dist);
                proof {
                    vstd::arithmetic::div_mod::lemma_div_is_ordered(
                        (256 - tau) as int * (256 - tau) as int,
                        65536int,
                        256int,
                    );
                    vstd::arithmetic::div_mod::lemma_div_is_ordered(
                        0,
                        (256 - tau) as int * (256 - tau) as int,
                        256int,
                    );
                    assert(outer as int * fall as int <= 65536 && outer as int * fall as int >= 0)
                        by (nonlinear_arith)
                        requires
                            0 <= outer <= 256,
                            0 <= fall <= 256;
                    assert(outer as int * fall as int * (color.a as int) <= 255 * 256 * 256
                        && outer as int * fall as int * (color.a as int) >= 0)
                        by (nonlinear_arith)
                        requires
                            0 <= outer as int * fall as int <= 65536,
                            0 <= color.a <= 255;
                }
                (outer as u64) * (fall as u64) * (color.a as u64)
            }
        },
    }
}

/// Whether `c` is an ASCII decimal digit.
pub open spec fn is_digit(c: char) -> bool {
    '0' <= c && c <= '9'
}

/// Every character of `s` is a decimal digit.
pub open spec fn all_digits(s: Seq<char>) -> bool {
    forall|i: int| 0 <= i < s.len() ==> is_digit(#[trigger] s[i])
}

/// The number a string of decimal digits denotes.
pub open spec fn digits_val(s: Seq<char>) -> int
    decreases s.len(),
{
    if s.len() == 0 {
        0
    } else {
        digits_val(s.drop_last()) * 10 + (s.last() as int - '0' as int)
    }
}

/// A digit string denotes a nonnegative number.
proof fn lemma_digits_val_nonneg(s: Seq<char>)
    requires
        all_digits(s),
    ensures
        digits_val(s) >= 0,
    decreases s.len(),
{
    if s.len() > 0 {
        assert(all_digits(s.drop_last())) by {
            assert forall|i: int| 0 <= i < s.drop_last().len() implies is_digit(
                #[trigger] s.drop_last()[i],
            ) by {
                assert(s.drop_last()[i] == s[i]);
            }
        }
        lemma_digits_val_nonneg(s.drop_last());
        assert(is_digit(s.last()));
    }
}

/// A digit string denotes at least what any of its prefixes denotes.
proof fn lemma_digits_val_prefix(s: Seq<char>, j: int)
    requires
        all_digits(s),
        0 <= j <= s.len(),
    ensures
        digits_val(s.take(j)) <= digits_val(s),
    decreases s.len() - j,
{
    if j == s.len() {
        assert(s.take(j) =~= s);
    } else {
        lemma_digits_val_prefix(s, j + 1);
        assert(s.take(j + 1).drop_last() =~= s.take(j));
        assert(s.take(j + 1).last() == s[j]);
        assert(all_digits(s.take(j))) by {
            assert forall|i: int| 0 <= i < s.take(j).len() implies is_digit(
                #[trigger] s.take(j)[i],
            ) by {
                assert(s.take(j)[i] == s[i]);
            }
        }
        lemma_digits_val_nonneg(s.take(j));
        assert(is_digit(s[j]));
        assert(digits_val(s.take(j + 1)) == digits_val(s.take(j)) * 10 + (s[j] as int
            - '0' as int));
        assert(digits_val(s.take(j)) * 10 >= digits_val(s.take(j))) by (nonlinear_arith)
            requires digits_val(s.take(j)) >= 0;
    }
}

/// `s` without its leading whitespace characters.
pub open spec fn trim_front(s: Seq<char>) -> Seq<char>
    decreases s.len(),
{
    if s.len() > 0 && is_space(s[0]) {
        trim_front(s.skip(1))
    } else {
        s
    }
}

/// `s` without its trailing whitespace characters.
pub open spec fn trim_back(s: Seq<char>) -> Seq<char>
    decreases s.len(),
{
    if s.len() > 0 && is_space(s.last()) {
        trim_back(s.drop_last())
    } else {
        s
    }
}

/// `s` without surrounding whitespace.
pub open spec fn trimmed(s: Seq<char>) -> Seq<char> {
    trim_back(trim_front(s))
}

/// The number a nonempty all-digit string denotes, if its value fits a
/// `u32`; `None` for anything else.
pub open spec fn spec_parse_digits(t: Seq<char>) -> Option<u32> {
    if t.len() > 0 && all_digits(t) && digits_val(t) <= u32::MAX {
        Some(digits_val(t) as u32)
    } else {
        None
    }
}

/// The number a decimal numeral denotes: the text, after dropping
/// surrounding whitespace and at most one leading `+`, must be a
/// nonempty digit string whose value fits a `u32`; `None` for anything
/// else.
pub open spec fn spec_parse_u32(s: Seq<char>) -> Option<u32> {
    let t0 = trimmed(s);
    let t = if t0.len() > 0 && t0[0] == '+' {
        t0.skip(1)
    } else {
        t0
    };
    spec_parse_digits(t)
}

/// Position of the first `x` in `s` at or after `i`, or -1 if there is
/// none.
pub open spec fn find_x(s: Seq<char>, i: int) -> int
    decreases s.len() - i,
{
    if i < 0 || i >= s.len() {
        -1
    } else if s[i] == 'x' {
        i
    } else {
        find_x(s, i + 1)
    }
}

/// The canvas dimensions a `WxH` string denotes: the part before the
/// first `x` and the part after it, each a decimal pixel count with
/// optional surrounding whitespace and an optional leading `+`.
pub open spec fn spec_parse_canvas(s: Seq<char>) -> Option<(u32, u32)> {
    let k = find_x(s, 0);
    if k < 0 {
        None
    } else {
        match (spec_parse_u32(s.take(k)), spec_parse_u32(s.skip(k + 1))) {
            (Some(w), Some(h)) => Some((w, h)),
            _ => None,
        }
    }
}

/// The `u32` the characters of `s` at positions `[from, to)` denote:
/// surrounding whitespace skipped, at most one leading `+`, then digits.
fn parse_u32_range(s: &str, from: usize, to: usize) -> (r: Option<u32>)
    requires
        from <= to <= s@.len(),
    ensures
        r == spec_parse_u32(s@.subrange(from as int, to as int)),
{
    let ghost orig = s@.subrange(from as int, to as int);
    let mut lo: usize = from;
    let mut hi: usize = to;
    while lo < hi && is_whitespace_char(s.get_char(lo))
        invariant
            from <= lo <= hi <= s@.len(),
            hi == to,
            trim_front(orig) == trim_front(s@.subrange(lo as int, to as int)),
        decreases hi - lo,
    {
        proof {
            assert(s@.subrange(lo as int, to as int).skip(1) =~= s@.subrange(
                lo + 1,
                to as int,
            ));
        }
        lo = lo + 1;
    }
    proof {
        assert(trim_front(orig) == s@.subrange(lo as int, to as int));
    }
    let ghost front = s@.subrange(lo as int, to as int);
    while hi > lo && is_whitespace_char(s.get_char(hi - 1))
        invariant
            from <= lo <= hi <= to <= s@.len(),
            front == s@.subrange(lo as int, to as int),
            trim_back(front) == trim_back(s@.subrange(lo as int, hi as int)),
        decreases hi - lo,
    {
        proof {
            assert(s@.subrange(lo as int, hi as int).drop_last() =~= s@.subrange(
                lo as int,
                hi - 1,
            ));
            assert(s@.subrange(lo as int, hi as int).last() == s@[hi - 1]);
        }
        hi = hi - 1;
    }
    proof {
        if lo < hi {
            assert(s@.subrange(lo as int, hi as int).last() == s@[hi - 1]);
        }
        assert(trimmed(orig) == s@.subrange(lo as int, hi as int));
    }
    let start: usize = if lo < hi && s.get_char(lo) == '+' {
        proof {
            assert(s@.subrange(lo as int, hi as int)[0] == s@[lo as int]);
            assert(s@.subrange(lo as int, hi as int).skip(1) =~= s@.subrange(
                lo + 1,
                hi as int,
            ));
        }
        lo + 1
    } else {
        proof {
            if lo < hi {
                assert(s@.subrange(lo as int, hi as int)[0] == s@[lo as int]);
            }
        }
        lo
    };
    let ghost part = s@.subrange(start as int, hi as int);
    proof {
        assert(spec_parse_u32(orig) == spec_parse_digits(part));
    }
    let pfrom: usize = start;
    let pto: usize = hi;
    if pfrom == pto {
        return None;
    }
    let mut val: u64 = 0;
    let mut i: usize = pfrom;
    while i < pto
        invariant
            pfrom <= i <= pto <= s@.len(),
            part == s@.subrange(pfrom as int, pto as int),
            spec_parse_u32(s@.subrange(from as int, to as int)) == spec_parse_digits(part),
            all_digits(part.take(i - pfrom)),
            val == digits_val(part.take(i - pfrom)),
            val <= u32::MAX,
        decreases pto - i,
    {
        let c = s.get_char(i);
        proof {
            assert(part[i - pfrom] == s@[i as int]);
        }
        if !('0' <= c && c <= '9') {
            proof {
                assert(!is_digit(part[i - pfrom]));
            }
            return None;
        }
        let d: u64 = (c as u32 - '0' as u32) as u64;
        val = val * 10 + d;
        proof {
            assert(part.take(i - pfrom + 1).drop_last() =~= part.take(i - pfrom));
            assert(part.take(i - pfrom + 1).last() == part[i - pfrom]);
            assert(all_digits(part.take(i - pfrom + 1))) by {
                assert forall|j: int| 0 <= j < i - pfrom + 1 implies is_digit(
                    #[trigger] part.take(i - pfrom + 1)[j],
                ) by {
                    assert(part.take(i - pfrom + 1)[j] == part.take(i - pfrom).push(
                        part[i - pfrom],
                    )[j]);
                }
            }
        }
        if val > 0xFFFFFFFF {
            proof {
                if all_digits(part) {
                    lemma_digits_val_prefix(part, i - pfrom + 1);
                }
            }
            return None;
        }
        i = i + 1;
    }
    proof {
        assert(part.take(pto - pfrom) =~= part);
    }
    Some(val as u32)
}

/// Parse canvas dimensions written `WxH` (for example `144x144` or
/// `72x72`): the decimal pixel counts on either side of the first `x`.
pub fn parse_canvas(s: &str) -> (r: Option<(u32, u32)>)
    ensures
        r == spec_parse_canvas(s@),
{
    let n: usize = s.unicode_len();
    let mut i: usize = 0;
    while i < n
        invariant
            n == s@.len(),
            i <= n,
            find_x(s@, 0) == find_x(s@, i as int),
        decreases n - i,
    {
        if s.get_char(i) == 'x' {
            let w = parse_u32_range(s, 0, i);
            let h = parse_u32_range(s, i + 1, n);
            proof {
                assert(s@.subrange(0, i as int) =~= s@.take(i as int));
                assert(s@.subrange(i + 1, n as int) =~= s@.skip(i + 1));
            }
            return match (w, h) {
                (Some(w), Some(h)) => Some((w, h)),
                _ => None,
            };
        }
        i = i + 1;
    }
    None
}

} // verus!
