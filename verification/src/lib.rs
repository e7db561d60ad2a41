//! Render small raster icons: text laid out on a fixed-size transparent
//! canvas, optionally framed by a decorative border, sized for Stream
//! Deck key icons (144 x 144 px high-DPI or 72 x 72 px standard).
//!
//! The pixel-level engine works in exact integer arithmetic: geometry and
//! text positions in `SUBPX` fixed-point units per pixel, alpha blending
//! as exact rational arithmetic over 8-bit channels. Font metrics, glyph
//! coverage and word widths come from an external glyph provider as plain
//! integers; PNG and base64 encoding are delegated to external encoders
//! at the output boundary.

use vstd::prelude::*;

pub mod border;
pub mod canvas;
pub mod color;
pub mod compositor;
pub mod error;
pub mod font;
pub mod geometry;
pub mod layout;
pub mod output;
pub mod text;

pub use border::BorderStyle;
pub use canvas::{parse_canvas, Canvas};
pub use color::Color;
pub use error::RenderError;
pub use font::{FontHandle, FontRegistry};
pub use layout::{split_words, wrap_words, TextLine, WrapOptions};
pub use output::RenderedImage;
pub use text::{line_origins, FontMetrics, HAlign, TextOptions, VAlign};

verus! {

/// Number of fixed-point units per pixel used throughout the engine.
pub const SUBPX: u32 = 256;

} // verus!
