//! Rasterizer behavior: exact pixels for fills, clipping, compositing.

use agd_ui::color::{parse_rgb, rgb_tuple};
use agd_ui::hit_test::{build_hit_test, HitTestIndex};
use agd_ui::model::{Command, PathSegment, Point, RenderEnvelope, WindowSpec};
use agd_ui::renderer::{render_to_buffer, RenderAssets};
use agd_ui::textdraw::{FontAtlas, GlyphEntry, GlyphRaster};
use agd_ui::validator::validate_render;

fn no_assets() -> RenderAssets {
    RenderAssets { font: None, path_images: Vec::new() }
}

fn px(buf: &Vec<u8>, w: usize, x: usize, y: usize) -> (u8, u8, u8) {
    let i = (y * w + x) * 4;
    (buf[i + 2], buf[i + 1], buf[i])
}

fn envelope(w: u32, h: u32, commands: Vec<Command>) -> RenderEnvelope {
    RenderEnvelope {
        version: String::from("AGD/0.2"),
        render_type: String::from("render"),
        seq: 1,
        window: WindowSpec { width: w, height: h, title: String::from("Demo") },
        commands,
    }
}

fn clear(color: &str) -> Command {
    Command::Clear { color: String::from(color) }
}

#[test]
fn demo_envelope_renders_and_hits() {
    let env = envelope(
        200,
        100,
        vec![
            clear("#ffffff"),
            Command::Rect {
                id: Some(String::from("btn1")),
                x: 10,
                y: 10,
                w: 50,
                h: 20,
                fill: Some(String::from("#ff0000")),
                stroke: None,
                stroke_width: None,
                clickable: true,
            },
        ],
    );
    assert!(validate_render(&env).is_ok());
    let (w, h, buf) = render_to_buffer(&env, &no_assets()).unwrap();
    assert_eq!((w, h), (200, 100));
    assert_eq!(buf.len(), 200 * 100 * 4);
    assert_eq!(px(&buf, w, 20, 15), (255, 0, 0));
    assert_eq!(px(&buf, w, 5, 5), (255, 255, 255));
    let mut index = HitTestIndex::new();
    build_hit_test(&mut index, &env);
    assert_eq!(index.hit(20, 15), Some("btn1"));
    assert_eq!(index.hit(100, 90), None);
}

#[test]
fn later_clear_repaints_everything() {
    let env = envelope(8, 8, vec![clear("#ffffff"), clear("#102030")]);
    let (w, _, buf) = render_to_buffer(&env, &no_assets()).unwrap();
    assert_eq!(px(&buf, w, 0, 0), (0x10, 0x20, 0x30));
    assert_eq!(px(&buf, w, 7, 7), (0x10, 0x20, 0x30));
}

#[test]
fn rect_clips_at_buffer_edges() {
    let env = envelope(
        10,
        10,
        vec![
            clear("#ffffff"),
            Command::Rect {
                id: None,
                x: -5,
                y: -5,
                w: 8,
                h: 8,
                fill: Some(String::from("#00ff00")),
                stroke: None,
                stroke_width: None,
                clickable: false,
            },
        ],
    );
    let (w, _, buf) = render_to_buffer(&env, &no_assets()).unwrap();
    assert_eq!(px(&buf, w, 0, 0), (0, 255, 0));
    assert_eq!(px(&buf, w, 2, 2), (0, 255, 0));
    assert_eq!(px(&buf, w, 3, 3), (255, 255, 255));
}

#[test]
fn circle_fill_is_the_integer_disk() {
    let env = envelope(
        21,
        21,
        vec![
            clear("#ffffff"),
            Command::Circle {
                cx: Some(10),
                cy: Some(10),
                r: Some(5),
                fill: Some(String::from("#0000ff")),
                stroke: None,
                stroke_width: None,
            },
        ],
    );
    let (w, h, buf) = render_to_buffer(&env, &no_assets()).unwrap();
    for y in 0..h {
        for x in 0..w {
            let dx = x as i64 - 10;
            let dy = y as i64 - 10;
            let inside = dx * dx + dy * dy <= 25;
            let got = px(&buf, w, x, y);
            if inside {
                assert_eq!(got, (0, 0, 255));
            } else {
                assert_eq!(got, (255, 255, 255));
            }
        }
    }
}

#[test]
fn line_paints_its_endpoints_diagonal() {
    let env = envelope(
        10,
        10,
        vec![
            clear("#ffffff"),
            Command::Line {
                x1: 1,
                y1: 1,
                x2: 8,
                y2: 8,
                color: Some(String::from("#000000")),
                width: None,
            },
        ],
    );
    let (w, _, buf) = render_to_buffer(&env, &no_assets()).unwrap();
    assert_eq!(px(&buf, w, 1, 1), (0, 0, 0));
    assert_eq!(px(&buf, w, 8, 8), (0, 0, 0));
    assert_eq!(px(&buf, w, 4, 4), (0, 0, 0));
    assert_eq!(px(&buf, w, 1, 8), (255, 255, 255));
}

#[test]
fn polygon_fill_covers_interior() {
    let env = envelope(
        20,
        20,
        vec![
            clear("#ffffff"),
            Command::Polygon {
                points: Some(vec![
                    Point { x: 2, y: 2 },
                    Point { x: 17, y: 2 },
                    Point { x: 17, y: 17 },
                    Point { x: 2, y: 17 },
                ]),
                fill: Some(String::from("#ff00ff")),
                stroke: None,
                stroke_width: None,
            },
        ],
    );
    let (w, _, buf) = render_to_buffer(&env, &no_assets()).unwrap();
    assert_eq!(px(&buf, w, 10, 10), (255, 0, 255));
    assert_eq!(px(&buf, w, 0, 0), (255, 255, 255));
    assert_eq!(px(&buf, w, 19, 19), (255, 255, 255));
}

#[test]
fn path_closed_triangle_fills() {
    let segs = vec![
        PathSegment { cmd: String::from("M"), x: Some(2), y: Some(16) },
        PathSegment { cmd: String::from("L"), x: Some(16), y: Some(16) },
        PathSegment { cmd: String::from("L"), x: Some(9), y: Some(3) },
        PathSegment { cmd: String::from("Z"), x: None, y: None },
    ];
    let env = envelope(
        20,
        20,
        vec![
            clear("#ffffff"),
            Command::Path {
                segments: Some(segs),
                fill: Some(String::from("#003300")),
                stroke: None,
                stroke_width: None,
            },
        ],
    );
    let (w, _, buf) = render_to_buffer(&env, &no_assets()).unwrap();
    assert_eq!(px(&buf, w, 9, 14), (0, 0x33, 0));
    assert_eq!(px(&buf, w, 1, 1), (255, 255, 255));
}

#[test]
fn round_rect_central_band_filled_corner_outside() {
    let env = envelope(
        30,
        20,
        vec![
            clear("#ffffff"),
            Command::RoundRect {
                x: Some(2),
                y: Some(2),
                w: Some(26),
                h: Some(16),
                r: Some(6),
                fill: Some(String::from("#123456")),
                stroke: None,
                stroke_width: None,
            },
        ],
    );
    let (w, _, buf) = render_to_buffer(&env, &no_assets()).unwrap();
    assert_eq!(px(&buf, w, 15, 10), (0x12, 0x34, 0x56));
    assert_eq!(px(&buf, w, 2, 2), (255, 255, 255));
    assert_eq!(px(&buf, w, 0, 0), (255, 255, 255));
}

#[test]
fn round_rect_radius_clamps_to_half_smaller_side() {
    // An oversized corner radius renders identically to the clamped one.
    let mk = |r: u32| {
        envelope(
            30,
            20,
            vec![
                clear("#ffffff"),
                Command::RoundRect {
                    x: Some(2),
                    y: Some(2),
                    w: Some(26),
                    h: Some(16),
                    r: Some(r),
                    fill: Some(String::from("#123456")),
                    stroke: None,
                    stroke_width: None,
                },
            ],
        )
    };
    let (_, _, big) = render_to_buffer(&mk(100), &no_assets()).unwrap();
    let (_, _, clamped) = render_to_buffer(&mk(8), &no_assets()).unwrap();
    assert_eq!(big, clamped);
}

#[test]
fn undecodable_base64_image_errors() {
    let env = envelope(
        10,
        10,
        vec![
            clear("#ffffff"),
            Command::Image {
                x: Some(0),
                y: Some(0),
                w: Some(4),
                h: Some(4),
                src_type: Some(String::from("base64")),
                src: Some(String::from("!!!not-base64!!!")),
            },
        ],
    );
    let err = render_to_buffer(&env, &no_assets()).unwrap_err();
    assert_eq!(err.message(), "image could not be decoded");
}

#[test]
fn base64_png_image_composites() {
    // Build a 2x2 opaque red PNG in memory, feed it through the base64 path,
    // and check the pixels land in the buffer (resampled at same size).
    let imgbuf = image::RgbaImage::from_pixel(2, 2, image::Rgba([255u8, 0, 0, 255]));
    let mut bytes: Vec<u8> = Vec::new();
    {
        let mut cursor = std::io::Cursor::new(&mut bytes);
        image::DynamicImage::ImageRgba8(imgbuf)
            .write_to(&mut cursor, image::ImageFormat::Png)
            .unwrap();
    }
    let payload = base64::Engine::encode(&base64::engine::general_purpose::STANDARD, &bytes);
    let env = envelope(
        10,
        10,
        vec![
            clear("#ffffff"),
            Command::Image {
                x: Some(3),
                y: Some(3),
                w: Some(2),
                h: Some(2),
                src_type: Some(String::from("base64")),
                src: Some(payload),
            },
        ],
    );
    let (w, _, buf) = render_to_buffer(&env, &no_assets()).unwrap();
    assert_eq!(px(&buf, w, 3, 3), (255, 0, 0));
    assert_eq!(px(&buf, w, 4, 4), (255, 0, 0));
    assert_eq!(px(&buf, w, 2, 2), (255, 255, 255));
    assert_eq!(px(&buf, w, 5, 5), (255, 255, 255));
}

#[test]
fn text_glyph_blends_over_background() {
    // One synthetic glyph for 'A': a 2x2 block of full coverage.
    let glyph = GlyphRaster {
        xmin: 0,
        ymin: 0,
        width: 2,
        height: 2,
        advance_q6: 128,
        coverage: vec![255, 255, 255, 255],
    };
    let atlas = FontAtlas {
        glyphs: vec![GlyphEntry { ch: 'A', in_primary: true, primary: glyph, emoji: None }],
        ascent: 4,
        line_height: 6,
    };
    let env = envelope(
        10,
        10,
        vec![
            clear("#ffffff"),
            Command::Text {
                x: 2,
                y: 2,
                text: String::from("A"),
                color: Some(String::from("#000000")),
                bg: None,
            },
        ],
    );
    let assets = RenderAssets { font: Some(atlas), path_images: Vec::new() };
    let (w, _, buf) = render_to_buffer(&env, &assets).unwrap();
    // Baseline is y + ascent = 6; the glyph box sits just above it.
    assert_eq!(px(&buf, w, 2, 4), (0, 0, 0));
    assert_eq!(px(&buf, w, 3, 5), (0, 0, 0));
    assert_eq!(px(&buf, w, 2, 6), (255, 255, 255));
}

#[test]
fn parse_rgb_matches_hex_digits() {
    assert_eq!(parse_rgb("#ff8001").unwrap(), 0xff8001);
    assert_eq!(rgb_tuple(0xff8001), (0xff, 0x80, 0x01));
    assert_eq!(parse_rgb("#AbCdEf").unwrap(), 0xabcdef);
    assert!(parse_rgb("red").is_err());
    assert!(parse_rgb("#12345").is_err());
    assert!(parse_rgb("#1234567").is_err());
}

#[test]
fn blend_channel_formula_exact() {
    // coverage 128 of white over black: (255*128 + 0*127)/255 = 128.
    assert_eq!(agd_ui::textdraw::blend_channel(255, 0, 128), 128);
    assert_eq!(agd_ui::textdraw::blend_channel(0, 255, 128), 127);
    assert_eq!(agd_ui::textdraw::blend_channel(200, 100, 0), 100);
    assert_eq!(agd_ui::textdraw::blend_channel(200, 100, 255), 200);
}

#[test]
fn rect_stroke_stays_within_declared_bounds() {
    // The outline's far edges sit on the last row and column inside the
    // rectangle; nothing is painted one past them.
    let env = envelope(
        20,
        20,
        vec![
            clear("#ffffff"),
            Command::Rect {
                id: None,
                x: 2,
                y: 2,
                w: 10,
                h: 10,
                fill: None,
                stroke: Some(String::from("#000000")),
                stroke_width: Some(1),
                clickable: false,
            },
        ],
    );
    let (w, _, buf) = render_to_buffer(&env, &no_assets()).unwrap();
    assert_eq!(px(&buf, w, 11, 2), (0, 0, 0));
    assert_eq!(px(&buf, w, 2, 11), (0, 0, 0));
    assert_eq!(px(&buf, w, 11, 11), (0, 0, 0));
    assert_eq!(px(&buf, w, 12, 2), (255, 255, 255));
    assert_eq!(px(&buf, w, 2, 12), (255, 255, 255));
}

#[test]
fn rect_stroke_draws_edges_not_interior() {
    let env = envelope(
        20,
        20,
        vec![
            clear("#ffffff"),
            Command::Rect {
                id: None,
                x: 2,
                y: 2,
                w: 10,
                h: 10,
                fill: None,
                stroke: Some(String::from("#000000")),
                stroke_width: Some(1),
                clickable: false,
            },
        ],
    );
    let (w, _, buf) = render_to_buffer(&env, &no_assets()).unwrap();
    assert_eq!(px(&buf, w, 2, 2), (0, 0, 0));
    assert_eq!(px(&buf, w, 7, 2), (0, 0, 0));
    assert_eq!(px(&buf, w, 2, 7), (0, 0, 0));
    assert_eq!(px(&buf, w, 7, 7), (255, 255, 255));
}

#[test]
fn circle_outline_touches_cardinal_points() {
    let env = envelope(
        21,
        21,
        vec![
            clear("#ffffff"),
            Command::Circle {
                cx: Some(10),
                cy: Some(10),
                r: Some(6),
                fill: None,
                stroke: Some(String::from("#000000")),
                stroke_width: None,
            },
        ],
    );
    let (w, _, buf) = render_to_buffer(&env, &no_assets()).unwrap();
    assert_eq!(px(&buf, w, 16, 10), (0, 0, 0));
    assert_eq!(px(&buf, w, 4, 10), (0, 0, 0));
    assert_eq!(px(&buf, w, 10, 16), (0, 0, 0));
    assert_eq!(px(&buf, w, 10, 4), (0, 0, 0));
    assert_eq!(px(&buf, w, 10, 10), (255, 255, 255));
}

#[test]
fn arc_covers_only_its_quadrant() {
    let env = envelope(
        21,
        21,
        vec![
            clear("#ffffff"),
            Command::Arc {
                cx: Some(10),
                cy: Some(10),
                r: Some(6),
                start_angle: Some(0),
                end_angle: Some(90),
                color: Some(String::from("#000000")),
                width: None,
            },
        ],
    );
    let (w, _, buf) = render_to_buffer(&env, &no_assets()).unwrap();
    // Angles grow towards positive y: the arc runs from (cx+r, cy) down to
    // (cx, cy+r).
    assert_eq!(px(&buf, w, 16, 10), (0, 0, 0));
    assert_eq!(px(&buf, w, 10, 16), (0, 0, 0));
    assert_eq!(px(&buf, w, 10, 4), (255, 255, 255));
    assert_eq!(px(&buf, w, 4, 10), (255, 255, 255));
}

#[test]
fn polyline_strokes_between_points() {
    let env = envelope(
        12,
        12,
        vec![
            clear("#ffffff"),
            Command::Polyline {
                points: Some(vec![
                    Point { x: 1, y: 1 },
                    Point { x: 9, y: 1 },
                    Point { x: 9, y: 9 },
                ]),
                color: Some(String::from("#000000")),
                width: None,
            },
        ],
    );
    let (w, _, buf) = render_to_buffer(&env, &no_assets()).unwrap();
    assert_eq!(px(&buf, w, 1, 1), (0, 0, 0));
    assert_eq!(px(&buf, w, 5, 1), (0, 0, 0));
    assert_eq!(px(&buf, w, 9, 5), (0, 0, 0));
    assert_eq!(px(&buf, w, 1, 9), (255, 255, 255));
}

#[test]
fn ellipse_fill_matches_scaled_equation() {
    let env = envelope(
        21,
        15,
        vec![
            clear("#ffffff"),
            Command::Ellipse {
                cx: Some(10),
                cy: Some(7),
                rx: Some(8),
                ry: Some(4),
                fill: Some(String::from("#224466")),
                stroke: None,
                stroke_width: None,
            },
        ],
    );
    let (w, h, buf) = render_to_buffer(&env, &no_assets()).unwrap();
    for y in 0..h {
        for x in 0..w {
            let dx = x as i64 - 10;
            let dy = y as i64 - 7;
            let inside = dy * dy <= 16 && dx * dx * 16 <= 64 * (16 - dy * dy);
            let got = px(&buf, w, x, y);
            if inside {
                assert_eq!(got, (0x22, 0x44, 0x66));
            } else {
                assert_eq!(got, (255, 255, 255));
            }
        }
    }
}

#[test]
fn isqrt_exact_values() {
    assert_eq!(agd_ui::shapes::isqrt64(0), 0);
    assert_eq!(agd_ui::shapes::isqrt64(15), 3);
    assert_eq!(agd_ui::shapes::isqrt64(16), 4);
    assert_eq!(agd_ui::shapes::isqrt64(u64::MAX), 0xffff_ffff);
}
