//! Text placement: alignment of wrapped lines on the canvas and cursor
//! advancement along a line.
//!
//! All positions are in `SUBPX` (256ths of a pixel) units. Font metrics
//! come from the external glyph-metrics provider at a fixed scale:
//! ascent, descent (a negative quantity) and the font's natural line gap.

use vstd::prelude::*;

use crate::color::Color;
use crate::layout::TextLine;

verus! {

/// Horizontal alignment of each text line within the canvas.
#[derive(Debug, Clone, Copy, PartialEq, Eq, Structural)]
pub enum HAlign {
    Left,
    Center,
    Right,
}

impl Default for HAlign {
    /// Lines are centered by default.
    fn default() -> (a: Self)
        ensures
            a == HAlign::Center,
    {
        HAlign::Center
    }
}

/// Vertical alignment of the text block within the canvas.
#[derive(Debug, Clone, Copy, PartialEq, Eq, Structural)]
pub enum VAlign {
    Top,
    Center,
    Bottom,
    /// Place the first baseline at an absolute coordinate in `SUBPX`
    /// units, ignoring the block height: for precise multi-call layouts
    /// at different sizes.
    Baseline(i64),
}

impl Default for VAlign {
    /// The block is centered by default.
    fn default() -> (a: Self)
        ensures
            a == VAlign::Center,
    {
        VAlign::Center
    }
}

/// Vertical font metrics at one fixed scale, in `SUBPX` units: ascent
/// above the baseline, descent below it (a negative quantity), and the
/// font's natural gap between lines.
#[derive(Debug, Clone, Copy, PartialEq, Eq, Structural)]
pub struct FontMetrics {
    pub ascent: i64,
    pub descent: i64,
    pub line_gap: i64,
}

/// Options controlling how text is rendered onto the canvas. The font
/// handle itself stays with the caller, who drives the external glyph
/// rasterizer at `size` pixels.
#[derive(Debug, Clone, Copy)]
pub struct TextOptions {
    /// Font size in pixels.
    pub size: u32,
    pub color: Color,
    pub h_align: HAlign,
    pub v_align: VAlign,
    /// Extra `SUBPX` units of vertical spacing added between lines on
    /// top of the font's natural line gap.
    pub line_gap: i64,
}

impl TextOptions {
    /// Options for white, centered text at the given size.
    pub fn new(size: u32) -> (o: Self)
        ensures
            o.size == size,
            o.color == (Color { r: 255, g: 255, b: 255, a: 255 }),
            o.h_align == HAlign::Center,
            o.v_align == VAlign::Center,
            o.line_gap == 0,
    {
        TextOptions {
            size,
            color: Color { r: 255, g: 255, b: 255, a: 255 },
            h_align: HAlign::Center,
            v_align: VAlign::Center,
            line_gap: 0,
        }
    }

    /// These options with another text color.
    pub fn color(self, c: Color) -> (o: Self)
        ensures
            o == (TextOptions { color: c, ..self }),
    {
        TextOptions { color: c, ..self }
    }

    /// These options with another horizontal alignment.
    pub fn h_align(self, a: HAlign) -> (o: Self)
        ensures
            o == (TextOptions { h_align: a, ..self }),
    {
        TextOptions { h_align: a, ..self }
    }

    /// These options with another vertical alignment.
    pub fn v_align(self, a: VAlign) -> (o: Self)
        ensures
            o == (TextOptions { v_align: a, ..self }),
    {
        TextOptions { v_align: a, ..self }
    }

    /// These options with extra line spacing, in `SUBPX` units.
    pub fn line_gap(self, g: i64) -> (o: Self)
        ensures
            o == (TextOptions { line_gap: g, ..self }),
    {
        TextOptions { line_gap: g, ..self }
    }
}

/// Division by two rounding toward zero, as the placement formulas use
/// for centering.
pub open spec fn div2_trunc(v: int) -> int {
    if v >= 0 {
        v / 2
    } else {
        -((-v) / 2)
    }
}

/// Height of one line: ascent minus descent plus the font's line gap plus
/// the caller's extra gap.
pub open spec fn spec_line_height(m: FontMetrics, extra_gap: int) -> int {
    m.ascent - m.descent + m.line_gap + extra_gap
}

/// Height of a block of `n` lines: one ascent-to-descent extent plus
/// `n - 1` full line heights.
pub open spec fn spec_block_height(m: FontMetrics, extra_gap: int, n: int) -> int {
    m.ascent - m.descent + (n - 1) * spec_line_height(m, extra_gap)
}

/// The `SUBPX` y coordinate of the first line's baseline: at the ascent
/// for top alignment, centering or bottoming the whole block otherwise,
/// or exactly the given coordinate.
pub open spec fn spec_first_baseline(
    m: FontMetrics,
    extra_gap: int,
    n: int,
    canvas_h_units: int,
    v: VAlign,
) -> int {
    match v {
        VAlign::Top => m.ascent as int,
        VAlign::Center => div2_trunc(canvas_h_units - spec_block_height(m, extra_gap, n))
            + m.ascent,
        VAlign::Bottom => canvas_h_units - (spec_block_height(m, extra_gap, n) - m.ascent),
        VAlign::Baseline(y) => y as int,
    }
}

/// The `SUBPX` x coordinate where a line of the given width starts.
pub open spec fn spec_start_x(h: HAlign, canvas_w_units: int, line_w: int) -> int {
    match h {
        HAlign::Left => 0,
        HAlign::Center => div2_trunc(canvas_w_units - line_w),
        HAlign::Right => canvas_w_units - line_w,
    }
}

/// Division by two rounding toward zero.
fn half_trunc(v: i64) -> (r: i64)
    requires
        -0x4000000000000000 <= v <= 0x4000000000000000,
    ensures
        r as int == div2_trunc(v as int),
{
    if v >= 0 {
        v / 2
    } else {
        -((-v) / 2)
    }
}

/// Place every wrapped line on a `canvas_w` by `canvas_h` pixel canvas:
/// for each line, the `SUBPX` coordinates of its start (pen) position and
/// its baseline, per the alignment options.
pub fn line_origins(
    lines: &Vec<TextLine>,
    metrics: &FontMetrics,
    opts: &TextOptions,
    canvas_w: u32,
    canvas_h: u32,
) -> (origins: Vec<(i64, i64)>)
    requires
        canvas_w <= 65535,
        canvas_h <= 65535,
        lines@.len() <= 65535,
        -0x1000000 <= metrics.ascent <= 0x1000000,
        -0x1000000 <= metrics.descent <= 0x1000000,
        -0x1000000 <= metrics.line_gap <= 0x1000000,
        -0x1000000 <= opts.line_gap <= 0x1000000,
        opts.v_align matches VAlign::Baseline(y) ==> -0x100000000 <= y <= 0x100000000,
    ensures
        origins@.len() == lines@.len(),
        forall|k: int|
            0 <= k < lines@.len() ==> #[trigger] origins@[k].0 == spec_start_x(
                opts.h_align,
                canvas_w as int * 256,
                lines@[k].width_units as int,
            ),
        forall|k: int|
            0 <= k < lines@.len() ==> #[trigger] origins@[k].1 == spec_first_baseline(
                *metrics,
                opts.line_gap as int,
                lines@.len() as int,
                canvas_h as int * 256,
                opts.v_align,
            ) + k * spec_line_height(*metrics, opts.line_gap as int),
{
    let n: usize = lines.len();
    let line_h: i64 = metrics.ascent - metrics.descent + metrics.line_gap + opts.line_gap;
    proof {
        assert((n as int - 1) * (line_h as int) <= 65535 * 0x4000000 && (n as int - 1) * (
        line_h as int) >= -65535 * 0x4000000) by (nonlinear_arith)
            requires
                0 <= n <= 65535,
                -0x4000000 <= line_h <= 0x4000000;
    }
    let total_h: i64 = metrics.ascent - metrics.descent + (n as i64 - 1) * line_h;
    let h_units: i64 = (canvas_h as i64) * 256;
    let w_units: i64 = (canvas_w as i64) * 256;
    let first_baseline: i64 = match opts.v_align {
        VAlign::Top => metrics.ascent,
        VAlign::Center => half_trunc(h_units - total_h) + metrics.ascent,
        VAlign::Bottom => h_units - (total_h - metrics.ascent),
        VAlign::Baseline(y) => y,
    };
    let mut origins: Vec<(i64, i64)> = Vec::new();
    let mut k: usize = 0;
    while k < n
        invariant
            n == lines@.len(),
            n <= 65535,
            k <= n,
            -0x4000000 <= line_h <= 0x4000000,
            -0x800000000000 <= first_baseline <= 0x800000000000,
            w_units == canvas_w as int * 256,
            canvas_w <= 65535,
            line_h as int == spec_line_height(*metrics, opts.line_gap as int),
            first_baseline as int == spec_first_baseline(
                *metrics,
                opts.line_gap as int,
                n as int,
                canvas_h as int * 256,
                opts.v_align,
            ),
            origins@.len() == k,
            forall|j: int|
                0 <= j < k ==> #[trigger] origins@[j].0 == spec_start_x(
                    opts.h_align,
                    canvas_w as int * 256,
                    lines@[j].width_units as int,
                ),
            forall|j: int| 0 <= j < k ==> #[trigger] origins@[j].1 == first_baseline + j * line_h,
        decreases n - k,
    {
        proof {
            assert(k as int * (line_h as int) <= 65535 * 0x4000000 && k as int * (line_h as int)
                >= -65535 * 0x4000000) by (nonlinear_arith)
                requires
                    0 <= k <= 65535,
                    -0x4000000 <= line_h <= 0x4000000;
        }
        let lw: i64 = lines[k].width_units as i64;
        let sx: i64 = match opts.h_align {
            HAlign::Left => 0,
            HAlign::Center => half_trunc(w_units - lw),
            HAlign::Right => w_units - lw,
        };
        let by: i64 = first_baseline + (k as i64) * line_h;
        origins.push((sx, by));
        k = k + 1;
    }
    origins
}

/// The pen x coordinate at which the glyph for character `i` of a line is
/// positioned: the line's start, advanced by every earlier glyph's
/// horizontal advance, with each glyph's kerning against its predecessor
/// applied before it is placed.
pub open spec fn spec_pen_x(start_x: int, advances: Seq<i64>, kerns: Seq<i64>, i: int) -> int
    decreases i,
{
    if i <= 0 {
        start_x + kerns[0]
    } else {
        spec_pen_x(start_x, advances, kerns, i - 1) + advances[i - 1] + kerns[i]
    }
}

/// Advance the pen across one line of glyphs: given each glyph's
/// horizontal advance and its kerning against the previous glyph
/// (zero for the first), the x coordinate at which each glyph is placed.
/// All values in `SUBPX` units.
pub fn glyph_positions(start_x: i64, advances: &Vec<i64>, kerns: &Vec<i64>) -> (xs: Vec<i64>)
    requires
        advances@.len() == kerns@.len(),
        advances@.len() <= 65536,
        -0x100000000 <= start_x <= 0x100000000,
        forall|j: int| 0 <= j < advances@.len() ==> -0x4000000 <= #[trigger] advances@[j]
            <= 0x4000000,
        forall|j: int| 0 <= j < kerns@.len() ==> -0x4000000 <= #[trigger] kerns@[j] <= 0x4000000,
    ensures
        xs@.len() == advances@.len(),
        forall|i: int|
            0 <= i < xs@.len() ==> #[trigger] xs@[i] == spec_pen_x(
                start_x as int,
                advances@,
                kerns@,
                i,
            ),
{
    let n: usize = advances.len();
    let mut xs: Vec<i64> = Vec::new();
    let mut pen: i64 = start_x;
    let mut i: usize = 0;
    while i < n
        invariant
            n == advances@.len(),
            n == kerns@.len(),
            n <= 65536,
            i <= n,
            xs@.len() == i,
            forall|j: int| 0 <= j < n ==> -0x4000000 <= #[trigger] advances@[j] <= 0x4000000,
            forall|j: int| 0 <= j < n ==> -0x4000000 <= #[trigger] kerns@[j] <= 0x4000000,
            -0x100000000 - i * 0x8000000 <= pen <= 0x100000000 + i * 0x8000000,
            i == 0 ==> pen == start_x,
            i > 0 ==> pen as int == spec_pen_x(start_x as int, advances@, kerns@, i - 1)
                + advances@[i - 1],
            forall|j: int|
                0 <= j < i ==> #[trigger] xs@[j] == spec_pen_x(start_x as int, advances@, kerns@, j),
        decreases n - i,
    {
        pen = pen + kerns[i];
        xs.push(pen);
        pen = pen + advances[i];
        i = i + 1;
    }
    xs
}

} // verus!
