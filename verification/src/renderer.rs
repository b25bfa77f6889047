//! The software rasterizer: replays a command list into a pixel buffer.
//!
//! The buffer starts opaque white and the commands draw strictly in list
//! order, so later commands paint over earlier ones.  The contract captures
//! that z-order semantics exactly for flat paints: wherever the command list
//! determines a pixel's color — the last command that could touch the pixel
//! paints it a flat color — the produced buffer holds that color.

use vstd::math::{max, min};
use vstd::prelude::*;

use crate::buffer::{
    fill_rect, spec_buf_ok, spec_in_bounds, spec_pix, spec_pixel_is, spec_pixel_same,
    spec_rect_covers,
};
use crate::color::{parse_rgb, rgb_tuple, spec_rgb, RenderError};
use crate::imagedraw::{
    decode_base64_image, spec_base64_decode, spec_image_ok, spec_image_parses, DecodedImage,
};
use crate::lines::{
    draw_line, draw_polyline, draw_polyline_closed, draw_rect_outline, spec_pts_region, spec_th,
};
use crate::model::{Command, RenderEnvelope};
use crate::poly::{fill_polygon, segments_to_subpaths};
use crate::shapes::{
    draw_arc, draw_ellipse_outline, draw_round_rect_outline, fill_circle, fill_ellipse,
    fill_round_rect, spec_circle_covers, spec_disk_region, spec_ellipse_covers, spec_rr_rad,
};
use crate::strutil::str_eq;
use crate::textdraw::{draw_text, spec_atlas_ok, FontAtlas};
use crate::validator::{spec_cmd_valid, spec_valid_envelope};

verus! {

/// A pre-decoded bitmap for a file-sourced image command, keyed by its
/// source string and declared size.  The application decodes files up front;
/// base64 payloads are decoded inside the rasterizer.
#[derive(Debug, Clone)]
pub struct PathImage {
    pub src: String,
    pub w: u32,
    pub h: u32,
    pub img: DecodedImage,
}

/// The collaborator-supplied assets one rasterization pass may use.
#[derive(Debug, Clone)]
pub struct RenderAssets {
    pub font: Option<FontAtlas>,
    pub path_images: Vec<PathImage>,
}

/// Assets whose bitmaps and glyph bitmaps are well-formed and whose
/// pre-decoded images match their declared sizes.
pub open spec fn spec_assets_ok(a: RenderAssets) -> bool {
    &&& (match a.font {
        Some(f) => spec_atlas_ok(f),
        None => true,
    })
    &&& (forall|i: int|
        0 <= i < a.path_images@.len() ==> {
            let e = #[trigger] a.path_images@[i];
            spec_image_ok(e.img) && e.img.width == e.w && e.img.height == e.h
        })
}

/// A protocol size field read as a signed 32-bit value, wrapping beyond
/// the signed range — the cast the drawing layer applies to radii.
pub open spec fn spec_wrap32(v: u32) -> int {
    if v <= 0x7fff_ffff {
        v as int
    } else {
        v - 0x1_0000_0000
    }
}

/// The thickness an optional width field yields: the value, or one.
pub open spec fn spec_opt_th(w: Option<u32>) -> int {
    match w {
        Some(t) => spec_th(t as int),
        None => 1,
    }
}

/// Whether the command may change the pixel `(px, py)`: an over-approximation
/// of each operation's verified frame.
pub open spec fn spec_touches(cmd: Command, assets: RenderAssets, px: int, py: int) -> bool {
    match cmd {
        Command::Clear { .. } => true,
        Command::Rect { x, y, w, h, fill, stroke, stroke_width, .. } => {
            let t = spec_opt_th(stroke_width);
            ||| (fill is Some && spec_rect_covers(x as int, y as int, w as int, h as int, px, py))
            ||| (stroke is Some && spec_rect_covers(
                x - 2 * t - 2,
                y - 2 * t - 2,
                w + 4 * t + 4,
                h + 4 * t + 4,
                px,
                py,
            ))
        },
        Command::Text { .. } => assets.font is Some,
        Command::Line { x1, y1, x2, y2, width, .. } => {
            let t = spec_opt_th(width);
            spec_rect_covers(
                min(x1 as int, x2 as int) - t,
                min(y1 as int, y2 as int) - t,
                (max(x1 as int, x2 as int) - min(x1 as int, x2 as int)) + 2 * t,
                (max(y1 as int, y2 as int) - min(y1 as int, y2 as int)) + 2 * t,
                px,
                py,
            )
        },
        Command::Circle { cx, cy, r, fill, stroke, stroke_width } => {
            if cx is Some && cy is Some && r is Some {
                let rr = spec_wrap32(r->0);
                let reg = spec_disk_region(cx->0 as int, cy->0 as int, rr, rr, spec_opt_th(
                    stroke_width,
                ));
                ||| (fill is Some && spec_rect_covers(reg.0, reg.1, reg.2, reg.3, px, py))
                ||| (stroke is Some && spec_rect_covers(reg.0, reg.1, reg.2, reg.3, px, py))
            } else {
                false
            }
        },
        Command::Ellipse { cx, cy, rx, ry, fill, stroke, stroke_width } => {
            if cx is Some && cy is Some && rx is Some && ry is Some {
                let reg = spec_disk_region(
                    cx->0 as int,
                    cy->0 as int,
                    spec_wrap32(rx->0),
                    spec_wrap32(ry->0),
                    spec_opt_th(stroke_width),
                );
                (fill is Some || stroke is Some) && spec_rect_covers(
                    reg.0,
                    reg.1,
                    reg.2,
                    reg.3,
                    px,
                    py,
                )
            } else {
                false
            }
        },
        Command::RoundRect { x, y, w, h, r, fill, stroke, stroke_width } => {
            if x is Some && y is Some && w is Some && h is Some && r is Some {
                let t = spec_opt_th(stroke_width);
                ||| (fill is Some && spec_rect_covers(
                    x->0 as int,
                    y->0 as int,
                    w->0 as int,
                    h->0 as int,
                    px,
                    py,
                ))
                ||| (stroke is Some && spec_rect_covers(
                    x->0 - 4 * t - 6,
                    y->0 - 4 * t - 6,
                    w->0 + 8 * t + 12,
                    h->0 + 8 * t + 12,
                    px,
                    py,
                ))
            } else {
                false
            }
        },
        Command::Arc { cx, cy, r, start_angle, end_angle, width, .. } => {
            if cx is Some && cy is Some && r is Some && start_angle is Some && end_angle is Some {
                let rr = spec_wrap32(r->0);
                let reg = spec_disk_region(cx->0 as int, cy->0 as int, rr, rr, spec_opt_th(width));
                spec_rect_covers(reg.0, reg.1, reg.2, reg.3, px, py)
            } else {
                false
            }
        },
        Command::Polyline { points, width, .. } => {
            match points {
                Some(pv) => {
                    let reg = spec_pts_region(pv@, spec_opt_th(width));
                    spec_rect_covers(reg.0, reg.1, reg.2, reg.3, px, py)
                },
                None => false,
            }
        },
        Command::Polygon { points, fill, stroke, stroke_width } => {
            match points {
                Some(pv) => {
                    let reg = spec_pts_region(pv@, spec_opt_th(stroke_width));
                    (fill is Some || stroke is Some) && spec_rect_covers(
                        reg.0,
                        reg.1,
                        reg.2,
                        reg.3,
                        px,
                        py,
                    )
                },
                None => false,
            }
        },
        Command::Image { x, y, w, h, src_type, src } => {
            if x is Some && y is Some && w is Some && h is Some && src_type is Some && src is Some {
                spec_rect_covers(x->0 as int, y->0 as int, w->0 as int, h->0 as int, px, py)
            } else {
                false
            }
        },
        Command::Path { .. } => true,
    }
}

/// The flat color the command certainly paints at `(px, py)`, when it does:
/// a clear everywhere, or an unstroked fill inside its exact extent.
pub open spec fn spec_flat_at(cmd: Command, px: int, py: int) -> Option<(u8, u8, u8)> {
    match cmd {
        Command::Clear { color } => Some(spec_rgb(color@)),
        Command::Rect { x, y, w, h, fill, stroke, .. } => {
            if fill is Some && stroke is None && spec_rect_covers(
                x as int,
                y as int,
                w as int,
                h as int,
                px,
                py,
            ) {
                Some(spec_rgb(fill->0@))
            } else {
                None
            }
        },
        Command::Circle { cx, cy, r, fill, stroke, .. } => {
            if cx is Some && cy is Some && r is Some && fill is Some && stroke is None
                && spec_circle_covers(cx->0 as int, cy->0 as int, spec_wrap32(r->0), px, py) {
                Some(spec_rgb(fill->0@))
            } else {
                None
            }
        },
        Command::Ellipse { cx, cy, rx, ry, fill, stroke, .. } => {
            if cx is Some && cy is Some && rx is Some && ry is Some && fill is Some
                && stroke is None && spec_ellipse_covers(
                cx->0 as int,
                cy->0 as int,
                spec_wrap32(rx->0),
                spec_wrap32(ry->0),
                px,
                py,
            ) {
                Some(spec_rgb(fill->0@))
            } else {
                None
            }
        },
        Command::RoundRect { x, y, w, h, r, fill, stroke, .. } => {
            if x is Some && y is Some && w is Some && h is Some && r is Some && fill is Some
                && stroke is None && w->0 > 0 && h->0 > 0 && {
                let rc = spec_rr_rad(w->0 as int, h->0 as int, r->0 as int);
                x->0 + rc <= px < x->0 + w->0 - rc && y->0 <= py < y->0 + h->0
            } {
                Some(spec_rgb(fill->0@))
            } else {
                None
            }
        },
        _ => None,
    }
}

/// The color the command list determines for `(px, py)`: walking back from
/// the last command, the first one that flat-paints the pixel decides; one
/// that may touch it without a definite flat color leaves it undetermined;
/// if no command touches it, the opaque-white initial buffer decides.
pub open spec fn spec_determined(
    cmds: Seq<Command>,
    assets: RenderAssets,
    px: int,
    py: int,
) -> Option<(u8, u8, u8)>
    decreases cmds.len(),
{
    if cmds.len() == 0 {
        Some((255u8, 255u8, 255u8))
    } else {
        let last = cmds.last();
        match spec_flat_at(last, px, py) {
            Some(c) => Some(c),
            None => {
                if spec_touches(last, assets, px, py) {
                    None
                } else {
                    spec_determined(cmds.drop_last(), assets, px, py)
                }
            },
        }
    }
}

/// Later commands draw over earlier ones: a pixel flat-painted by the last
/// command is determined by it alone, whatever was drawn before.
pub proof fn lemma_last_flat_paint_wins(
    cmds: Seq<Command>,
    assets: RenderAssets,
    px: int,
    py: int,
    c: (u8, u8, u8),
)
    requires
        cmds.len() > 0,
        spec_flat_at(cmds.last(), px, py) == Some(c),
    ensures
        spec_determined(cmds, assets, px, py) == Some(c),
{
}

/// Replays one command over the buffer.  Pixels the command cannot touch
/// keep their bytes; wherever it certainly paints a flat color, the buffer
/// holds that color afterwards.  An error is either an undecodable image or
/// — defensively, out of contract — a malformed color, which only an invalid
/// command can carry.
#[verifier::loop_isolation(false)]
#[verifier::rlimit(100)]
pub fn apply_command(
    p: &mut Vec<u8>,
    pw: usize,
    ph: usize,
    command: &Command,
    assets: &RenderAssets,
) -> (r: Result<(), RenderError>)
    requires
        spec_buf_ok(old(p)@, pw as int, ph as int),
        spec_assets_ok(*assets),
    ensures
        final(p)@.len() == old(p)@.len(),
        forall|px: int, py: int|
            #![trigger spec_pix(pw as int, px, py)]
            spec_in_bounds(pw as int, ph as int, px, py) && !spec_touches(*command, *assets, px, py)
                ==> spec_pixel_same(final(p)@, old(p)@, pw as int, px, py),
        r is Ok ==> forall|px: int, py: int|
            #![trigger spec_pix(pw as int, px, py)]
            spec_in_bounds(pw as int, ph as int, px, py) ==> (match spec_flat_at(
                *command,
                px,
                py,
            ) {
                Some(c) => spec_pixel_is(final(p)@, pw as int, px, py, c),
                None => true,
            }),
        r matches Err(e) ==> ((e == RenderError::ImageDecode && command is Image
            && spec_image_cmd_fails(*command, *assets)) || (e == RenderError::BadColor
            && !spec_cmd_valid(*command))),
{
    let ghost ci = *command;
    match command {
        Command::Clear { color } => {
            let rgbv = match parse_rgb(color.as_str()) {
                Ok(v) => v,
                Err(_) => {
                    assert(!spec_cmd_valid(ci));
                    return Err(RenderError::BadColor);
                },
            };
            let rgb = rgb_tuple(rgbv);
            proof {
                crate::color::lemma_rgb_of_hex(color@);
            }
            fill_rect(p, pw, ph, 0, 0, pw as u32, ph as u32, rgb);
            Ok(())
        },
        Command::Rect { x, y, w, h, fill, stroke, stroke_width, .. } => {
            let ghost pre = p@;
            if let Some(fc) = fill {
                let rgbv = match parse_rgb(fc.as_str()) {
                    Ok(v) => v,
                    Err(_) => {
                        assert(!spec_cmd_valid(ci));
                        return Err(RenderError::BadColor);
                    },
                };
                let rgb = rgb_tuple(rgbv);
                proof {
                    crate::color::lemma_rgb_of_hex(fc@);
                }
                fill_rect(p, pw, ph, *x, *y, *w, *h, rgb);
            }
            if let Some(sc) = stroke {
                let rgbv = match parse_rgb(sc.as_str()) {
                    Ok(v) => v,
                    Err(_) => {
                        assert(!spec_cmd_valid(ci));
                        return Err(RenderError::BadColor);
                    },
                };
                let rgb = rgb_tuple(rgbv);
                let t = match stroke_width {
                    Some(v) => *v,
                    None => 1,
                };
                draw_rect_outline(p, pw, ph, *x, *y, *w, *h, rgb, t);
            }
            Ok(())
        },
        Command::Text { x, y, text, color, bg } => {
            match &assets.font {
                None => Ok(()),
                Some(atlas) => {
                    let fg: (u8, u8, u8) = match color {
                        Some(c) => {
                            let rgbv = match parse_rgb(c.as_str()) {
                                Ok(v) => v,
                                Err(_) => {
                                    assert(!spec_cmd_valid(ci));
                                    return Err(RenderError::BadColor);
                                },
                            };
                            rgb_tuple(rgbv)
                        },
                        None => (0, 0, 0),
                    };
                    let bg_rgb: Option<(u8, u8, u8)> = match bg {
                        Some(b) => {
                            let rgbv = match parse_rgb(b.as_str()) {
                                Ok(v) => v,
                                Err(_) => {
                                    assert(!spec_cmd_valid(ci));
                                    return Err(RenderError::BadColor);
                                },
                            };
                            Some(rgb_tuple(rgbv))
                        },
                        None => None,
                    };
                    draw_text(p, pw, ph, *x, *y, text.as_str(), fg, bg_rgb, atlas);
                    Ok(())
                },
            }
        },
        Command::Line { x1, y1, x2, y2, color, width } => {
            let rgb: (u8, u8, u8) = match color {
                Some(c) => {
                    let rgbv = match parse_rgb(c.as_str()) {
                        Ok(v) => v,
                        Err(_) => {
                            assert(!spec_cmd_valid(ci));
                            return Err(RenderError::BadColor);
                        },
                    };
                    rgb_tuple(rgbv)
                },
                None => (0, 0, 0),
            };
            let t = match width {
                Some(v) => *v,
                None => 1,
            };
            draw_line(p, pw, ph, *x1, *y1, *x2, *y2, rgb, t);
            Ok(())
        },
        Command::Circle { cx, cy, r, fill, stroke, stroke_width } => {
            if let (Some(cxv), Some(cyv), Some(rv)) = (cx, cy, r) {
                let rr64: i64 = if *rv <= 0x7fff_ffff {
                    *rv as i64
                } else {
                    *rv as i64 - 0x1_0000_0000
                };
                let rr: i32 = rr64 as i32;
                let ghost reg = spec_disk_region(
                    *cxv as int,
                    *cyv as int,
                    rr as int,
                    rr as int,
                    spec_opt_th(*stroke_width),
                );
                if let Some(fc) = fill {
                    let rgbv = match parse_rgb(fc.as_str()) {
                        Ok(v) => v,
                        Err(_) => {
                            assert(!spec_cmd_valid(ci));
                            return Err(RenderError::BadColor);
                        },
                    };
                    let rgb = rgb_tuple(rgbv);
                    proof {
                        crate::color::lemma_rgb_of_hex(fc@);
                    }
                    let ghost pre = p@;
                    fill_circle(p, pw, ph, *cxv, *cyv, rr, rgb);
                    proof {
                        assert forall|px: int, py: int|
                            spec_circle_covers(*cxv as int, *cyv as int, rr as int, px, py) implies
                            spec_rect_covers(reg.0, reg.1, reg.2, reg.3, px, py) by {
                            assert(-(rr as int) <= px - *cxv <= rr && -(rr as int) <= py - *cyv
                                <= rr) by (nonlinear_arith)
                                requires
                                    (px - *cxv) * (px - *cxv) + (py - *cyv) * (py - *cyv) <= (
                                    rr as int) * (rr as int),
                                    rr >= 0,
                            ;
                        }
                    }
                }
                if let Some(sc) = stroke {
                    let rgbv = match parse_rgb(sc.as_str()) {
                        Ok(v) => v,
                        Err(_) => {
                            assert(!spec_cmd_valid(ci));
                            return Err(RenderError::BadColor);
                        },
                    };
                    let rgb = rgb_tuple(rgbv);
                    let t = match stroke_width {
                        Some(v) => *v,
                        None => 1,
                    };
                    draw_arc(p, pw, ph, *cxv, *cyv, rr, 0, 360, rgb, t);
                }
                Ok(())
            } else {
                Ok(())
            }
        },
        Command::Ellipse { cx, cy, rx, ry, fill, stroke, stroke_width } => {
            if let (Some(cxv), Some(cyv), Some(rxv), Some(ryv)) = (cx, cy, rx, ry) {
                let rx64: i64 = if *rxv <= 0x7fff_ffff {
                    *rxv as i64
                } else {
                    *rxv as i64 - 0x1_0000_0000
                };
                let ry64: i64 = if *ryv <= 0x7fff_ffff {
                    *ryv as i64
                } else {
                    *ryv as i64 - 0x1_0000_0000
                };
                let rxe: i32 = rx64 as i32;
                let rye: i32 = ry64 as i32;
                let ghost reg = spec_disk_region(
                    *cxv as int,
                    *cyv as int,
                    rxe as int,
                    rye as int,
                    spec_opt_th(*stroke_width),
                );
                if let Some(fc) = fill {
                    let rgbv = match parse_rgb(fc.as_str()) {
                        Ok(v) => v,
                        Err(_) => {
                            assert(!spec_cmd_valid(ci));
                            return Err(RenderError::BadColor);
                        },
                    };
                    let rgb = rgb_tuple(rgbv);
                    proof {
                        crate::color::lemma_rgb_of_hex(fc@);
                    }
                    fill_ellipse(p, pw, ph, *cxv, *cyv, rxe, rye, rgb);
                    proof {
                        assert forall|px: int, py: int|
                            spec_ellipse_covers(
                                *cxv as int,
                                *cyv as int,
                                rxe as int,
                                rye as int,
                                px,
                                py,
                            ) implies spec_rect_covers(reg.0, reg.1, reg.2, reg.3, px, py) by {
                            assert(-(rye as int) <= py - *cyv <= rye) by (nonlinear_arith)
                                requires
                                    (py - *cyv) * (py - *cyv) <= (rye as int) * (rye as int),
                                    rye >= 0,
                            ;
                            assert(-(rxe as int) <= px - *cxv <= rxe) by (nonlinear_arith)
                                requires
                                    (px - *cxv) * (px - *cxv) * ((rye as int) * (rye as int)) <= (
                                    rxe as int) * (rxe as int) * ((rye as int) * (rye as int) - (py
                                        - *cyv) * (py - *cyv)),
                                    (py - *cyv) * (py - *cyv) <= (rye as int) * (rye as int),
                                    rye > 0,
                                    rxe >= 0,
                            ;
                        }
                    }
                }
                if let Some(sc) = stroke {
                    let rgbv = match parse_rgb(sc.as_str()) {
                        Ok(v) => v,
                        Err(_) => {
                            assert(!spec_cmd_valid(ci));
                            return Err(RenderError::BadColor);
                        },
                    };
                    let rgb = rgb_tuple(rgbv);
                    let t = match stroke_width {
                        Some(v) => *v,
                        None => 1,
                    };
                    draw_ellipse_outline(p, pw, ph, *cxv, *cyv, rxe, rye, rgb, t);
                }
                Ok(())
            } else {
                Ok(())
            }
        },
        Command::RoundRect { x, y, w, h, r, fill, stroke, stroke_width } => {
            if let (Some(xv), Some(yv), Some(wv), Some(hv), Some(rv)) = (x, y, w, h, r) {
                if let Some(fc) = fill {
                    let rgbv = match parse_rgb(fc.as_str()) {
                        Ok(v) => v,
                        Err(_) => {
                            assert(!spec_cmd_valid(ci));
                            return Err(RenderError::BadColor);
                        },
                    };
                    let rgb = rgb_tuple(rgbv);
                    proof {
                        crate::color::lemma_rgb_of_hex(fc@);
                    }
                    fill_round_rect(p, pw, ph, *xv, *yv, *wv, *hv, *rv, rgb);
                }
                if let Some(sc) = stroke {
                    let rgbv = match parse_rgb(sc.as_str()) {
                        Ok(v) => v,
                        Err(_) => {
                            assert(!spec_cmd_valid(ci));
                            return Err(RenderError::BadColor);
                        },
                    };
                    let rgb = rgb_tuple(rgbv);
                    let t = match stroke_width {
                        Some(v) => *v,
                        None => 1,
                    };
                    draw_round_rect_outline(p, pw, ph, *xv, *yv, *wv, *hv, *rv, rgb, t);
                }
                Ok(())
            } else {
                Ok(())
            }
        },
        Command::Arc { cx, cy, r, start_angle, end_angle, color, width } => {
            if let (Some(cxv), Some(cyv), Some(rv), Some(sa), Some(ea)) = (
                cx,
                cy,
                r,
                start_angle,
                end_angle,
            ) {
                let rgb: (u8, u8, u8) = match color {
                    Some(c) => {
                        let rgbv = match parse_rgb(c.as_str()) {
                            Ok(v) => v,
                            Err(_) => {
                                assert(!spec_cmd_valid(ci));
                                return Err(RenderError::BadColor);
                            },
                        };
                        rgb_tuple(rgbv)
                    },
                    None => (0, 0, 0),
                };
                let t = match width {
                    Some(v) => *v,
                    None => 1,
                };
                let rr64: i64 = if *rv <= 0x7fff_ffff {
                    *rv as i64
                } else {
                    *rv as i64 - 0x1_0000_0000
                };
                let rr: i32 = rr64 as i32;
                draw_arc(p, pw, ph, *cxv, *cyv, rr, *sa, *ea, rgb, t);
                Ok(())
            } else {
                Ok(())
            }
        },
        Command::Polyline { points, color, width } => {
            match points {
                Some(pv) => {
                    let rgb: (u8, u8, u8) = match color {
                        Some(c) => {
                            let rgbv = match parse_rgb(c.as_str()) {
                                Ok(v) => v,
                                Err(_) => {
                                    assert(!spec_cmd_valid(ci));
                                    return Err(RenderError::BadColor);
                                },
                            };
                            rgb_tuple(rgbv)
                        },
                        None => (0, 0, 0),
                    };
                    let t = match width {
                        Some(v) => *v,
                        None => 1,
                    };
                    draw_polyline(p, pw, ph, pv, rgb, t);
                    Ok(())
                },
                None => Ok(()),
            }
        },
        Command::Polygon { points, fill, stroke, stroke_width } => {
            match points {
                Some(pv) => {
                    let t = match stroke_width {
                        Some(v) => *v,
                        None => 1,
                    };
                    let ghost reg = spec_pts_region(pv@, spec_opt_th(*stroke_width));
                    if let Some(fc) = fill {
                        let rgbv = match parse_rgb(fc.as_str()) {
                            Ok(v) => v,
                            Err(_) => {
                                assert(!spec_cmd_valid(ci));
                                return Err(RenderError::BadColor);
                            },
                        };
                        let rgb = rgb_tuple(rgbv);
                        fill_polygon(p, pw, ph, pv, rgb);
                    }
                    if let Some(sc) = stroke {
                        let rgbv = match parse_rgb(sc.as_str()) {
                            Ok(v) => v,
                            Err(_) => {
                                assert(!spec_cmd_valid(ci));
                                return Err(RenderError::BadColor);
                            },
                        };
                        let rgb = rgb_tuple(rgbv);
                        draw_polyline_closed(p, pw, ph, pv, rgb, t);
                    }
                    Ok(())
                },
                None => Ok(()),
            }
        },
        Command::Image { x, y, w, h, src_type, src } => {
            if let (Some(xv), Some(yv), Some(wv), Some(hv), Some(stv), Some(srcv)) = (
                x,
                y,
                w,
                h,
                src_type,
                src,
            ) {
                if *wv == 0 || *hv == 0 {
                    return Ok(());
                }
                proof {
                    assert((*wv as int) * (*hv as int) <= 0x1_0000_0000 * 0x1_0000_0000)
                        by (nonlinear_arith)
                        requires
                            0 <= *wv <= 0x1_0000_0000,
                            0 <= *hv <= 0x1_0000_0000,
                    ;
                }
                let fits = (*wv as u128) * (*hv as u128) * 4 <= usize::MAX as u128;
                if !fits {
                    return Err(RenderError::ImageDecode);
                }
                if str_eq(stv.as_str(), "base64") {
                    match decode_base64_image(srcv.as_str(), *wv, *hv) {
                        Some(img) => {
                            draw_image_data_cmd(p, pw, ph, *xv, *yv, &img);
                            Ok(())
                        },
                        None => Err(RenderError::ImageDecode),
                    }
                } else if str_eq(stv.as_str(), "path") {
                    match lookup_path_image(assets, srcv.as_str(), *wv, *hv) {
                        Some(img) => {
                            draw_image_data_cmd(p, pw, ph, *xv, *yv, img);
                            Ok(())
                        },
                        None => Err(RenderError::ImageDecode),
                    }
                } else {
                    Err(RenderError::ImageDecode)
                }
            } else {
                Ok(())
            }
        },
        Command::Path { segments, fill, stroke, stroke_width } => {
            match segments {
                Some(segs) => {
                    let subpaths = segments_to_subpaths(segs);
                    if let Some(fc) = fill {
                        let rgbv = match parse_rgb(fc.as_str()) {
                            Ok(v) => v,
                            Err(_) => {
                                assert(!spec_cmd_valid(ci));
                                return Err(RenderError::BadColor);
                            },
                        };
                        let rgb = rgb_tuple(rgbv);
                        let mut si: usize = 0;
                        while si < subpaths.len()
                            invariant
                                p@.len() == old(p)@.len(),
                            decreases subpaths@.len() - si,
                        {
                            if subpaths[si].len() >= 3 {
                                fill_polygon(p, pw, ph, &subpaths[si], rgb);
                            }
                            si = si + 1;
                        }
                    }
                    if let Some(sc) = stroke {
                        let rgbv = match parse_rgb(sc.as_str()) {
                            Ok(v) => v,
                            Err(_) => {
                                assert(!spec_cmd_valid(ci));
                                return Err(RenderError::BadColor);
                            },
                        };
                        let rgb = rgb_tuple(rgbv);
                        let t = match stroke_width {
                            Some(v) => *v,
                            None => 1,
                        };
                        let mut si: usize = 0;
                        while si < subpaths.len()
                            invariant
                                p@.len() == old(p)@.len(),
                            decreases subpaths@.len() - si,
                        {
                            if subpaths[si].len() >= 2 {
                                draw_polyline(p, pw, ph, &subpaths[si], rgb, t);
                            }
                            si = si + 1;
                        }
                    }
                    Ok(())
                },
                None => Ok(()),
            }
        },
    }
}

/// The pre-decoded bitmap for a file-sourced image, matched by source string
/// and declared size.
fn lookup_path_image<'a>(assets: &'a RenderAssets, src: &str, w: u32, h: u32) -> (r: Option<
    &'a DecodedImage,
>)
    requires
        spec_assets_ok(*assets),
    ensures
        r matches Some(img) ==> spec_image_ok(*img) && img.width == w && img.height == h,
        r is None ==> !spec_has_path_image(*assets, src@, w, h),
{
    let mut i: usize = 0;
    while i < assets.path_images.len()
        invariant
            0 <= i <= assets.path_images@.len(),
            spec_assets_ok(*assets),
            forall|j: int|
                0 <= j < i ==> !{
                    let e = #[trigger] assets.path_images@[j];
                    e.src@ == src@ && e.w == w && e.h == h
                },
        decreases assets.path_images@.len() - i,
    {
        let e = &assets.path_images[i];
        if e.w == w && e.h == h && str_eq(e.src.as_str(), src) {
            return Some(&e.img);
        }
        i = i + 1;
    }
    None
}

/// Whether the command list holds an image command.
pub open spec fn spec_has_image(cmds: Seq<Command>) -> bool {
    exists|i: int| 0 <= i < cmds.len() && (#[trigger] cmds[i]) is Image
}

/// Whether the assets hold a pre-decoded bitmap for this source and size.
pub open spec fn spec_has_path_image(assets: RenderAssets, src: Seq<char>, w: u32, h: u32) -> bool {
    exists|i: int|
        0 <= i < assets.path_images@.len() && {
            let e = #[trigger] assets.path_images@[i];
            e.src@ == src && e.w == w && e.h == h
        }
}

/// Why rendering an image command really fails: its size overflows the
/// machine, its base64 payload does not decode to a parseable image, its
/// file source has no pre-decoded bitmap, or its source kind is unknown.
pub open spec fn spec_image_cmd_fails(cmd: Command, assets: RenderAssets) -> bool {
    match cmd {
        Command::Image { x, y, w, h, src_type, src } => {
            &&& x is Some && y is Some && w is Some && h is Some && src_type is Some && src is Some
            &&& w->0 > 0 && h->0 > 0
            &&& {
                ||| w->0 * h->0 * 4 > usize::MAX
                ||| (src_type->0@ == "base64"@ && !(match spec_base64_decode(src->0@) {
                    Some(bs) => spec_image_parses(bs),
                    None => false,
                }))
                ||| (src_type->0@ != "base64"@ && src_type->0@ == "path"@ && !spec_has_path_image(
                    assets,
                    src->0@,
                    w->0,
                    h->0,
                ))
                ||| (src_type->0@ != "base64"@ && src_type->0@ != "path"@)
            }
        },
        _ => false,
    }
}

/// Rasterizes an envelope into an owned pixel buffer of the window's size:
/// opaque white, then every command replayed strictly in list order.
/// Wherever the command list determines a pixel's color, the buffer holds
/// it.  An error is an undecodable image, or — on an envelope that slipped
/// past validation — a malformed color.
#[verifier::loop_isolation(false)]
#[verifier::rlimit(60)]
pub fn render_to_buffer(render: &RenderEnvelope, assets: &RenderAssets) -> (r: Result<
    (usize, usize, Vec<u8>),
    RenderError,
>)
    requires
        render.window.width * render.window.height * 4 <= usize::MAX,
        spec_assets_ok(*assets),
    ensures
        r matches Ok(out) ==> {
            &&& out.0 == render.window.width
            &&& out.1 == render.window.height
            &&& out.2@.len() == out.0 * out.1 * 4
            &&& forall|px: int, py: int|
                #![trigger spec_pix(out.0 as int, px, py)]
                spec_in_bounds(out.0 as int, out.1 as int, px, py) ==> (match spec_determined(
                    render.commands@,
                    *assets,
                    px,
                    py,
                ) {
                    Some(c) => spec_pixel_is(out.2@, out.0 as int, px, py, c),
                    None => true,
                })
        },
        r matches Err(e) ==> ((e == RenderError::ImageDecode && (exists|i: int|
            0 <= i < render.commands@.len() && spec_image_cmd_fails(
                #[trigger] render.commands@[i],
                *assets,
            ))) || (e == RenderError::BadColor && !spec_valid_envelope(*render))),
{
    let pw = render.window.width as usize;
    let ph = render.window.height as usize;
    let mut pixels: Vec<u8> = vec![0u8; pw * ph * 4];
    fill_rect(
        &mut pixels,
        pw,
        ph,
        0,
        0,
        render.window.width,
        render.window.height,
        (255, 255, 255),
    );
    let cmds = &render.commands;
    let ghost cs = cmds@;
    proof {
        assert(cs.take(0) =~= Seq::<Command>::empty());
    }
    let mut i: usize = 0;
    while i < cmds.len()
        invariant
            0 <= i <= cs.len(),
            pixels@.len() == pw * ph * 4,
            forall|px: int, py: int|
                #![trigger spec_pix(pw as int, px, py)]
                spec_in_bounds(pw as int, ph as int, px, py) ==> (match spec_determined(
                    cs.take(i as int),
                    *assets,
                    px,
                    py,
                ) {
                    Some(c) => spec_pixel_is(pixels@, pw as int, px, py, c),
                    None => true,
                }),
        decreases cs.len() - i,
    {
        let ghost pre = pixels@;
        match apply_command(&mut pixels, pw, ph, &cmds[i], assets) {
            Ok(_) => {},
            Err(e) => {
                proof {
                    if e == RenderError::BadColor {
                        assert(!spec_cmd_valid(cs[i as int]));
                        assert(!spec_valid_envelope(*render));
                    }
                }
                return Err(e);
            },
        }
        proof {
            assert(cs.take(i as int + 1).drop_last() =~= cs.take(i as int));
            assert(cs.take(i as int + 1).last() == cs[i as int]);
            assert forall|px: int, py: int|
                spec_in_bounds(pw as int, ph as int, px, py) implies (match spec_determined(
                cs.take(i as int + 1),
                *assets,
                px,
                py,
            ) {
                Some(c) => spec_pixel_is(pixels@, pw as int, px, py, c),
                None => true,
            }) by {
                crate::buffer::lemma_pix_in_buf(pw as int, ph as int, px, py);
            }
        }
        i = i + 1;
    }
    proof {
        assert(cs.take(cs.len() as int) =~= cs);
    }
    Ok((pw, ph, pixels))
}

/// Composites a decoded image for an image command placed at `(x, y)`.
fn draw_image_data_cmd(p: &mut Vec<u8>, pw: usize, ph: usize, x: i32, y: i32, img: &DecodedImage)
    requires
        spec_buf_ok(old(p)@, pw as int, ph as int),
        spec_image_ok(*img),
    ensures
        final(p)@.len() == old(p)@.len(),
        forall|px: int, py: int|
            #![trigger spec_pix(pw as int, px, py)]
            spec_in_bounds(pw as int, ph as int, px, py) && !spec_rect_covers(
                x as int,
                y as int,
                img.width as int,
                img.height as int,
                px,
                py,
            ) ==> spec_pixel_same(final(p)@, old(p)@, pw as int, px, py),
{
    crate::imagedraw::draw_image_data(p, pw, ph, x as i64, y as i64, img);
}

} // verus!
