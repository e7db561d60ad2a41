//! Unit tests for colors, compositing, geometry, layout and parsing.

use streamdeck_render::color::Color;
use streamdeck_render::compositor::{composite_over, ALPHA_ONE};
use streamdeck_render::geometry::{rrect_sdf, smoothstep};
use streamdeck_render::layout::{split_words, wrap_words, WrapOptions};
use streamdeck_render::parse_canvas;

#[test]
fn hex_rgb() {
    assert_eq!(Color::from_hex("#ffffff"), Some(Color::rgb(255, 255, 255)));
    assert_eq!(Color::from_hex("#000000"), Some(Color::rgb(0, 0, 0)));
}

#[test]
fn hex_rgba() {
    assert_eq!(
        Color::from_hex("#ff000080"),
        Some(Color::rgba(255, 0, 0, 128))
    );
}

#[test]
fn hex_no_hash() {
    assert_eq!(Color::from_hex("ff0000"), Some(Color::rgb(255, 0, 0)));
}

#[test]
fn hex_invalid() {
    assert_eq!(Color::from_hex("#zzz"), None);
    assert_eq!(Color::from_hex("#fff"), None);
}

#[test]
fn hex_mixed_case() {
    assert_eq!(Color::from_hex("AbCdEf"), Some(Color::rgb(0xAB, 0xCD, 0xEF)));
}

#[test]
fn with_alpha_replaces_only_alpha() {
    let c = Color::rgb(10, 20, 30).with_alpha(99);
    assert_eq!(c, Color::rgba(10, 20, 30, 99));
}

#[test]
fn composite_zero_alpha_is_noop() {
    let mut dst = Color::rgba(10, 20, 30, 40);
    composite_over(&mut dst, Color::rgb(200, 200, 200), 0);
    assert_eq!(dst, Color::rgba(10, 20, 30, 40));
}

#[test]
fn composite_full_alpha_replaces() {
    let mut dst = Color::rgba(10, 20, 30, 40);
    composite_over(&mut dst, Color::rgba(1, 2, 3, 255), ALPHA_ONE);
    assert_eq!(dst, Color::rgba(1, 2, 3, 255));
}

#[test]
fn composite_onto_transparent_keeps_source_channels() {
    let mut dst = Color::rgba(0, 0, 0, 0);
    // Source at half opacity: 128/255 of full coverage.
    let alpha = 128 * 256 * 256;
    composite_over(&mut dst, Color::rgba(50, 100, 150, 128), alpha);
    assert_eq!(dst.r, 50);
    assert_eq!(dst.g, 100);
    assert_eq!(dst.b, 150);
    assert_eq!(dst.a, 128);
}

#[test]
fn smoothstep_clamps() {
    // In SUBPX units: one pixel is 256 units, a half is 128.
    assert_eq!(smoothstep(0, 256, -256), 0);
    assert_eq!(smoothstep(0, 256, 512), 256);
    assert_eq!(smoothstep(0, 256, 128), 128);
}

#[test]
fn sdf_center_is_negative() {
    // Center of a 144 x 144 canvas should be well inside.
    let d = rrect_sdf(72 * 256, 72 * 256, 144, 144, 8 * 256);
    assert!(d < 0, "centre should be inside (d={d})");
}

#[test]
fn sdf_outside_is_positive() {
    // Far outside the canvas.
    let d = rrect_sdf(200 * 256, 200 * 256, 144, 144, 8 * 256);
    assert!(d > 0, "outside should be positive (d={d})");
}

#[test]
fn sdf_edge_near_zero() {
    // A point on the straight left edge (x = 0.5 px, y = 72 px), away
    // from the corners: distance magnitude below one pixel (256 units).
    let d = rrect_sdf(128, 72 * 256, 144, 144, 8 * 256);
    assert!(d.abs() < 256, "edge should be near zero (d={d})");
}

#[test]
fn wrap_empty() {
    let opts = WrapOptions::default();
    assert_eq!(opts.max_width, 130 * 256);
    assert_eq!(opts.max_lines, 3);
}

#[test]
fn wrap_options_default() {
    let opts = WrapOptions::default();
    assert_eq!(opts.max_lines, 3);
    assert_eq!(opts.max_width, 130 * 256);
}

#[test]
fn split_words_drops_whitespace_runs() {
    let words = split_words("  Hello   World \n foo\t");
    let texts: Vec<&str> = words.iter().map(|w| w.as_str()).collect();
    assert_eq!(texts, vec!["Hello", "World", "foo"]);
}

#[test]
fn split_words_empty_input() {
    assert!(split_words("").is_empty());
    assert!(split_words(" \t\n ").is_empty());
}

#[test]
fn wrap_words_greedy_break() {
    let words: Vec<String> = vec!["aa".into(), "bb".into(), "cc".into()];
    // Each word 60 units, space 10: "aa bb" is 130, adding " cc" would be 200.
    let widths: Vec<u32> = vec![60, 60, 60];
    let opts = WrapOptions {
        max_width: 150,
        max_lines: 5,
    };
    let lines = wrap_words(&words, &widths, 10, &opts);
    assert_eq!(lines.len(), 2);
    assert_eq!(lines[0].text, "aa bb");
    assert_eq!(lines[0].width_units, 130);
    assert_eq!(lines[1].text, "cc");
    assert_eq!(lines[1].width_units, 60);
}

#[test]
fn wrap_words_zero_lines_yields_nothing() {
    let words: Vec<String> = vec!["aa".into()];
    let widths: Vec<u32> = vec![60];
    let opts = WrapOptions {
        max_width: 150,
        max_lines: 0,
    };
    assert!(wrap_words(&words, &widths, 10, &opts).is_empty());
}

#[test]
fn wrap_words_overflow_joins_final_line() {
    // Four words that would need four lines, but only two are allowed:
    // everything from the second word on lands on the final line.
    let words: Vec<String> = vec!["a".into(), "b".into(), "c".into(), "d".into()];
    let widths: Vec<u32> = vec![100, 100, 100, 100];
    let opts = WrapOptions {
        max_width: 120,
        max_lines: 2,
    };
    let lines = wrap_words(&words, &widths, 10, &opts);
    assert_eq!(lines.len(), 2);
    assert_eq!(lines[0].text, "a");
    assert_eq!(lines[1].text, "b c d");
    // No word was dropped: the joined lines spell the joined input.
    let joined: Vec<String> = lines.iter().map(|l| l.text.clone()).collect();
    assert_eq!(joined.join(" "), "a b c d");
}

#[test]
fn wrap_words_wide_word_stands_alone() {
    let words: Vec<String> = vec!["tiny".into(), "enormous".into(), "tiny".into()];
    let widths: Vec<u32> = vec![10, 500, 10];
    let opts = WrapOptions {
        max_width: 100,
        max_lines: 10,
    };
    let lines = wrap_words(&words, &widths, 5, &opts);
    assert_eq!(lines.len(), 3);
    assert_eq!(lines[1].text, "enormous");
    assert_eq!(lines[1].width_units, 500);
}

#[test]
fn parse_canvas_accepts_presets() {
    assert_eq!(parse_canvas("144x144"), Some((144, 144)));
    assert_eq!(parse_canvas("72x72"), Some((72, 72)));
    assert_eq!(parse_canvas("10x20"), Some((10, 20)));
}

#[test]
fn parse_canvas_trims_and_accepts_plus() {
    assert_eq!(parse_canvas(" 144x144"), Some((144, 144)));
    assert_eq!(parse_canvas("144 x 144"), Some((144, 144)));
    assert_eq!(parse_canvas("\t72 x\n72 "), Some((72, 72)));
    assert_eq!(parse_canvas("+144x+144"), Some((144, 144)));
    assert_eq!(parse_canvas("++1x1"), None);
    assert_eq!(parse_canvas("+x1"), None);
    assert_eq!(parse_canvas("1 4x5"), None);
    assert_eq!(parse_canvas("-1x5"), None);
}

#[test]
fn parse_canvas_rejects_malformed() {
    assert_eq!(parse_canvas("144"), None);
    assert_eq!(parse_canvas("x144"), None);
    assert_eq!(parse_canvas("144x"), None);
    assert_eq!(parse_canvas("axb"), None);
    assert_eq!(parse_canvas(""), None);
    assert_eq!(parse_canvas("99999999999x5"), None);
}
