//! Rendering tests: canvas operations, border effects, glyph blitting,
//! text placement and the encoded output.

use base64::Engine;
use streamdeck_render::border::BorderStyle;
use streamdeck_render::canvas::Canvas;
use streamdeck_render::color::Color;
use streamdeck_render::error::RenderError;
use streamdeck_render::font::FontRegistry;
use streamdeck_render::layout::{wrap_words, WrapOptions};
use streamdeck_render::output::RenderedImage;
use streamdeck_render::text::{glyph_positions, line_origins, FontMetrics, HAlign, TextOptions, VAlign};

/// Reference rounded-rectangle signed distance in floating point, for
/// cross-checking the fixed-point renderer within anti-aliasing margins.
fn ref_sdf(px: f64, py: f64, w: f64, h: f64, r: f64) -> f64 {
    let (cx, cy, hw, hh) = (w / 2.0, h / 2.0, w / 2.0, h / 2.0);
    let qx = (px - cx).abs() - hw + r;
    let qy = (py - cy).abs() - hh + r;
    let outside = (qx.max(0.0).powi(2) + qy.max(0.0).powi(2)).sqrt();
    outside + qx.min(0.0).max(qy.min(0.0)) - r
}

fn solid_72(thickness: u32, radius: u32) -> RenderedImage {
    let mut canvas = Canvas::key_icon_standard();
    canvas.draw_border(&BorderStyle::Solid {
        thickness,
        radius,
        color: Color::rgb(255, 255, 255),
    });
    canvas.finish()
}

#[test]
fn fill_sets_every_pixel() {
    let mut canvas = Canvas::new(5, 4);
    canvas.fill(Color::rgba(9, 8, 7, 6));
    let img = canvas.finish();
    assert_eq!(img.width(), 5);
    assert_eq!(img.height(), 4);
    for y in 0..4 {
        for x in 0..5 {
            assert_eq!(img.pixel(x, y), Color::rgba(9, 8, 7, 6));
        }
    }
}

#[test]
fn new_canvas_is_transparent() {
    let img = Canvas::key_icon().finish();
    assert_eq!(img.width(), 144);
    assert_eq!(img.height(), 144);
    assert_eq!(img.pixel(0, 0), Color::rgba(0, 0, 0, 0));
    assert_eq!(img.pixel(143, 143), Color::rgba(0, 0, 0, 0));
}

#[test]
fn horizontal_line_hits_one_row() {
    let mut canvas = Canvas::new(8, 8);
    canvas.draw_horizontal_line(3, Color::rgba(10, 20, 30, 255));
    let img = canvas.finish();
    for x in 0..8 {
        assert_eq!(img.pixel(x, 3), Color::rgba(10, 20, 30, 255));
        assert_eq!(img.pixel(x, 2).a, 0);
        assert_eq!(img.pixel(x, 4).a, 0);
    }
}

#[test]
fn horizontal_line_outside_is_noop() {
    let mut canvas = Canvas::new(8, 8);
    canvas.draw_horizontal_line(8, Color::rgb(1, 2, 3));
    let img = canvas.finish();
    for y in 0..8 {
        for x in 0..8 {
            assert_eq!(img.pixel(x, y).a, 0);
        }
    }
}

#[test]
fn no_border_leaves_canvas_unchanged() {
    let mut canvas = Canvas::new(16, 16);
    canvas.fill(Color::rgba(5, 6, 7, 8));
    canvas.draw_border(&BorderStyle::NoBorder);
    let img = canvas.finish();
    for y in 0..16 {
        for x in 0..16 {
            assert_eq!(img.pixel(x, y), Color::rgba(5, 6, 7, 8));
        }
    }
}

#[test]
fn solid_border_no_paint_outside_boundary() {
    // An opaque white 4px stroke with 8px corner radius on the standard
    // 72 x 72 icon: no pixel clearly outside the rounded boundary is
    // painted at all.
    let img = solid_72(4, 8);
    for y in 0..72 {
        for x in 0..72 {
            let d = ref_sdf(x as f64 + 0.5, y as f64 + 0.5, 72.0, 72.0, 8.0);
            if d >= 1.02 {
                assert_eq!(
                    img.pixel(x, y).a,
                    0,
                    "painted pixel outside boundary at ({x},{y}), d={d}"
                );
            }
        }
    }
}

#[test]
fn solid_border_band_is_fully_opaque() {
    // Inside the stroke band, clear of both anti-aliased edges, the
    // border is fully opaque white.
    let img = solid_72(4, 8);
    let mut opaque = 0;
    for y in 0..72 {
        for x in 0..72 {
            let d = ref_sdf(x as f64 + 0.5, y as f64 + 0.5, 72.0, 72.0, 8.0);
            if (-2.98..=-1.02).contains(&d) {
                assert_eq!(img.pixel(x, y), Color::rgb(255, 255, 255), "at ({x},{y}), d={d}");
                opaque += 1;
            }
        }
    }
    assert!(opaque > 200, "band unexpectedly small: {opaque}");
}

#[test]
fn solid_border_frame_is_closed() {
    // The ring of pixels one step inside the canvas edge, away from the
    // corners, is fully opaque on all four sides: the frame has no gaps.
    let img = solid_72(4, 8);
    for t in 12..60 {
        assert_eq!(img.pixel(1, t).a, 255, "left edge gap at y={t}");
        assert_eq!(img.pixel(70, t).a, 255, "right edge gap at y={t}");
        assert_eq!(img.pixel(t, 1).a, 255, "top edge gap at x={t}");
        assert_eq!(img.pixel(t, 70).a, 255, "bottom edge gap at x={t}");
    }
}

#[test]
fn vignette_fades_monotonically_inward() {
    let mut canvas = Canvas::key_icon_standard();
    canvas.draw_border(&BorderStyle::Vignette {
        width: 10,
        radius: 8,
        color: Color::rgb(255, 255, 255),
    });
    let img = canvas.finish();
    // Walking inward from the left edge at mid-height, the painted alpha
    // never increases.
    let mut prev = 255u8;
    for x in 0..36 {
        let a = img.pixel(x, 36).a;
        assert!(a <= prev, "alpha rose from {prev} to {a} at x={x}");
        prev = a;
    }
    // Deeper than the fade width the vignette paints nothing.
    for x in 12..36 {
        assert_eq!(img.pixel(x, 36).a, 0, "paint beyond fade width at x={x}");
    }
}

#[test]
fn blit_glyph_composites_coverage() {
    let mut canvas = Canvas::new(4, 4);
    // A 2 x 2 coverage bitmap: full, none, none, full.
    let cov: Vec<u16> = vec![256, 0, 0, 256];
    canvas.blit_glyph(1, 1, 2, 2, &cov, Color::rgb(9, 9, 9));
    let img = canvas.finish();
    assert_eq!(img.pixel(1, 1), Color::rgba(9, 9, 9, 255));
    assert_eq!(img.pixel(2, 1).a, 0);
    assert_eq!(img.pixel(1, 2).a, 0);
    assert_eq!(img.pixel(2, 2), Color::rgba(9, 9, 9, 255));
    assert_eq!(img.pixel(0, 0).a, 0);
    assert_eq!(img.pixel(3, 3).a, 0);
}

#[test]
fn blit_glyph_clips_out_of_bounds() {
    let mut canvas = Canvas::new(2, 2);
    let cov: Vec<u16> = vec![256; 16];
    // Anchored partly above and left of the canvas: only the overlap is
    // painted, and nothing panics.
    canvas.blit_glyph(-2, -2, 4, 4, &cov, Color::rgb(1, 1, 1));
    let img = canvas.finish();
    assert_eq!(img.pixel(0, 0).a, 255);
    assert_eq!(img.pixel(1, 1).a, 255);
}

#[test]
fn blit_glyph_half_coverage_blends() {
    let mut canvas = Canvas::new(1, 1);
    let cov: Vec<u16> = vec![128];
    canvas.blit_glyph(0, 0, 1, 1, &cov, Color::rgb(100, 100, 100));
    let img = canvas.finish();
    // Half coverage of an opaque color over transparency keeps the
    // source channels at half alpha.
    assert_eq!(img.pixel(0, 0).r, 100);
    assert_eq!(img.pixel(0, 0).a, 128);
}

#[test]
fn glyph_positions_accumulate_kerning_and_advance() {
    let advances: Vec<i64> = vec![10, 20, 30];
    let kerns: Vec<i64> = vec![0, 5, -2];
    let xs = glyph_positions(100, &advances, &kerns);
    assert_eq!(xs, vec![100, 115, 133]);
}

#[test]
fn text_options_defaults() {
    let opts = TextOptions::new(28);
    assert_eq!(opts.size, 28);
    assert_eq!(opts.color, Color::rgb(255, 255, 255));
    assert!(matches!(opts.h_align, HAlign::Center));
    assert!(matches!(opts.v_align, VAlign::Center));
    assert_eq!(opts.line_gap, 0);
    let opts = opts
        .color(Color::rgb(1, 2, 3))
        .h_align(HAlign::Left)
        .v_align(VAlign::Top)
        .line_gap(512);
    assert_eq!(opts.color, Color::rgb(1, 2, 3));
    assert!(matches!(opts.h_align, HAlign::Left));
    assert!(matches!(opts.v_align, VAlign::Top));
    assert_eq!(opts.line_gap, 512);
}

#[test]
fn centered_hello_world_is_one_line() {
    // End-to-end layout: "Hello World" at metrics typical of a 28px
    // font, wrapped to 130px on a 144 x 144 canvas, renders as exactly
    // one centered line with the baseline of the centering formula.
    let words: Vec<String> = vec!["Hello".into(), "World".into()];
    // 60px per word and an 8px space, in SUBPX units: 128px total.
    let widths: Vec<u32> = vec![60 * 256, 60 * 256];
    let opts = WrapOptions {
        max_width: 130 * 256,
        max_lines: 3,
    };
    let lines = wrap_words(&words, &widths, 8 * 256, &opts);
    assert_eq!(lines.len(), 1);
    assert_eq!(lines[0].text, "Hello World");
    assert_eq!(lines[0].width_units, 128 * 256);

    let metrics = FontMetrics {
        ascent: 25 * 256,
        descent: -7 * 256,
        line_gap: 0,
    };
    let topts = TextOptions::new(28);
    let origins = line_origins(&lines, &metrics, &topts, 144, 144);
    assert_eq!(origins.len(), 1);
    // Horizontally centered: (144 - 128) / 2 = 8px from the left.
    assert_eq!(origins[0].0, 8 * 256);
    // Vertically centered: (144*256 - block)/2 + ascent with
    // block = ascent - descent = 32px.
    assert_eq!(origins[0].1, (144 - 32) / 2 * 256 + 25 * 256);
}

#[test]
fn line_origins_other_alignments() {
    let words: Vec<String> = vec!["W".into()];
    let widths: Vec<u32> = vec![128 * 256];
    let opts = WrapOptions {
        max_width: 130 * 256,
        max_lines: 1,
    };
    let lines = wrap_words(&words, &widths, 8 * 256, &opts);
    let metrics = FontMetrics {
        ascent: 25 * 256,
        descent: -7 * 256,
        line_gap: 0,
    };
    let base = TextOptions::new(28);

    let top_left = line_origins(
        &lines,
        &metrics,
        &base.clone().h_align(HAlign::Left).v_align(VAlign::Top),
        144,
        144,
    );
    assert_eq!(top_left[0], (0, 25 * 256));

    let bottom_right = line_origins(
        &lines,
        &metrics,
        &base.clone().h_align(HAlign::Right).v_align(VAlign::Bottom),
        144,
        144,
    );
    assert_eq!(bottom_right[0].0, (144 - 128) * 256);
    assert_eq!(bottom_right[0].1, 144 * 256 - 7 * 256);

    let fixed = line_origins(&lines, &metrics, &base.v_align(VAlign::Baseline(5000)), 144, 144);
    assert_eq!(fixed[0].1, 5000);
}

#[test]
fn png_bytes_start_with_signature() {
    let mut canvas = Canvas::new(3, 3);
    canvas.fill(Color::rgba(1, 2, 3, 4));
    let img = canvas.finish();
    let png = img.to_png_bytes().unwrap();
    assert_eq!(&png[..8], &[0x89, 0x50, 0x4E, 0x47, 0x0D, 0x0A, 0x1A, 0x0A]);
}

#[test]
fn base64_decodes_back_to_png_bytes() {
    let mut canvas = Canvas::new(3, 3);
    canvas.fill(Color::rgba(200, 100, 50, 255));
    let img = canvas.finish();
    let png = img.to_png_bytes().unwrap();
    let b64 = img.to_base64().unwrap();
    let decoded = base64::engine::general_purpose::STANDARD
        .decode(b64.as_bytes())
        .unwrap();
    assert_eq!(decoded, png);
}

#[test]
fn data_url_has_png_prefix() {
    let img = Canvas::new(2, 2).finish();
    let url = img.to_data_url().unwrap();
    assert!(url.starts_with("data:image/png;base64,"));
    assert!(url.len() > "data:image/png;base64,".len());
}

#[test]
fn registry_rejects_invalid_font_data() {
    let mut fonts = FontRegistry::new();
    let err = fonts.load_bytes("bad", b"this is not a font").unwrap_err();
    assert!(matches!(err, RenderError::FontParse(_)));
    assert!(fonts.get("bad").is_none());
}

#[test]
fn registry_reports_missing_fonts() {
    let fonts = FontRegistry::new();
    assert!(fonts.get("sans").is_none());
    let err = fonts.require("sans").unwrap_err();
    match err {
        RenderError::FontNotFound(name) => assert_eq!(name, "sans"),
        other => panic!("unexpected error: {}", other.message()),
    }
}

#[test]
fn error_messages_name_their_cause() {
    assert_eq!(
        RenderError::FontNotFound("sans".to_string()).message(),
        "font not found: 'sans'"
    );
    assert_eq!(
        RenderError::PngEncode("boom".to_string()).message(),
        "PNG encoding failed: boom"
    );
}

#[test]
fn zero_sized_image_fails_png_encoding() {
    let img = Canvas::new(0, 0).finish();
    let err = img.to_png_bytes().unwrap_err();
    assert!(matches!(err, RenderError::PngEncode(_)));
}

#[test]
fn font_load_io_message_names_path() {
    let err = RenderError::FontLoadIo {
        path: "fonts/a.ttf".to_string(),
        message: "no such file".to_string(),
    };
    assert_eq!(
        err.message(),
        "failed to load font from 'fonts/a.ttf': no such file"
    );
    assert_eq!(
        RenderError::FontParse("bad magic".to_string()).message(),
        "failed to parse font data: bad magic"
    );
}

#[test]
fn layering_follows_call_order() {
    // Fill, then an opaque line: the line wins on its row.
    let mut canvas = Canvas::new(4, 4);
    canvas.fill(Color::rgb(10, 10, 10));
    canvas.draw_horizontal_line(1, Color::rgb(250, 0, 0));
    let img = canvas.finish();
    assert_eq!(img.pixel(2, 1), Color::rgb(250, 0, 0));
    assert_eq!(img.pixel(2, 0), Color::rgb(10, 10, 10));
}
