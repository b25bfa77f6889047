//! Line, outline and polyline stroking.
//!
//! Lines step integer Bresenham-style; a thickness above one is achieved by
//! stamping a square of that side length centered on each stepped point — an
//! intentional simplification, not a proper variable-width stroke.  The
//! stepping itself is the specification: each stroke's contract states
//! exactly which pixels its stamp squares paint, and that every other pixel
//! keeps its bytes.

use vstd::math::{abs, max, min};
use vstd::prelude::*;

use crate::buffer::{
    fill_rect_wide, spec_buf_ok, spec_frame_rect, spec_in_bounds, spec_only_color, spec_pix,
    spec_pixel_is, spec_pixel_same, spec_rect_covers,
};
use crate::model::Point;

verus! {

/// The effective stroke thickness: at least one.
pub open spec fn spec_th(t: int) -> int {
    if t < 1 {
        1
    } else {
        t
    }
}

/// The Bresenham stepping states from `(x, y)` towards `(x2, y2)`: each
/// state is stamped, the error term steers the steps, and the walk ends at
/// the endpoint or when the step budget runs out.
pub open spec fn spec_bres_from(
    x: int,
    y: int,
    x2: int,
    y2: int,
    dx: int,
    dy: int,
    sx: int,
    sy: int,
    err: int,
    fuel: nat,
) -> Seq<(int, int)>
    decreases fuel,
{
    if (x == x2 && y == y2) || fuel == 0 {
        seq![(x, y)]
    } else {
        let e2 = 2 * err;
        let xn = if e2 >= dy && x != x2 {
            x + sx
        } else {
            x
        };
        let err1 = if e2 >= dy {
            err + dy
        } else {
            err
        };
        let yn = if e2 <= dx && y != y2 {
            y + sy
        } else {
            y
        };
        let err2 = if e2 <= dx {
            err1 + dx
        } else {
            err1
        };
        seq![(x, y)] + spec_bres_from(xn, yn, x2, y2, dx, dy, sx, sy, err2, (fuel - 1) as nat)
    }
}

/// The stepped points of the segment from `(x1, y1)` to `(x2, y2)`.
pub open spec fn spec_line_points(x1: int, y1: int, x2: int, y2: int) -> Seq<(int, int)> {
    let dx = abs(x2 - x1) as int;
    let dy = -(abs(y2 - y1) as int);
    let sx: int = if x1 < x2 {
        1
    } else {
        -1
    };
    let sy: int = if y1 < y2 {
        1
    } else {
        -1
    };
    spec_bres_from(x1, y1, x2, y2, dx, dy, sx, sy, dx + dy, (dx - dy) as nat)
}

/// Whether the stroke's stamp squares — thickness-sized squares centered on
/// each stepped point — cover `(px, py)`.
pub open spec fn spec_line_covers(
    x1: int,
    y1: int,
    x2: int,
    y2: int,
    t: int,
    px: int,
    py: int,
) -> bool {
    let th = spec_th(t);
    let half = th / 2;
    let pts = spec_line_points(x1, y1, x2, y2);
    exists|i: int|
        0 <= i < pts.len() && spec_rect_covers(
            (#[trigger] pts[i]).0 - half,
            pts[i].1 - half,
            th,
            th,
            px,
            py,
        )
}

/// Draws the segment from `(x1, y1)` to `(x2, y2)` in color `rgb` with the
/// given thickness: exactly the pixels under the stamp squares of the
/// stepped points are painted.  Changes stay inside the segment's bounding
/// box inflated by the thickness; the starting point itself is painted.
#[verifier::loop_isolation(false)]
#[verifier::rlimit(100)]
pub fn draw_line_wide(
    p: &mut Vec<u8>,
    pw: usize,
    ph: usize,
    x1: i64,
    y1: i64,
    x2: i64,
    y2: i64,
    rgb: (u8, u8, u8),
    t: u32,
)
    requires
        spec_buf_ok(old(p)@, pw as int, ph as int),
        -0x8_0000_0000 <= x1 <= 0x8_0000_0000,
        -0x8_0000_0000 <= y1 <= 0x8_0000_0000,
        -0x8_0000_0000 <= x2 <= 0x8_0000_0000,
        -0x8_0000_0000 <= y2 <= 0x8_0000_0000,
    ensures
        final(p)@.len() == old(p)@.len(),
        spec_only_color(final(p)@, old(p)@, pw as int, ph as int, rgb),
        spec_frame_rect(
            final(p)@,
            old(p)@,
            pw as int,
            ph as int,
            min(x1 as int, x2 as int) - spec_th(t as int),
            min(y1 as int, y2 as int) - spec_th(t as int),
            (max(x1 as int, x2 as int) - min(x1 as int, x2 as int)) + 2 * spec_th(t as int),
            (max(y1 as int, y2 as int) - min(y1 as int, y2 as int)) + 2 * spec_th(t as int),
        ),
        spec_in_bounds(pw as int, ph as int, x1 as int, y1 as int) ==> spec_pixel_is(
            final(p)@,
            pw as int,
            x1 as int,
            y1 as int,
            rgb,
        ),
        forall|px: int, py: int|
            #![trigger spec_pix(pw as int, px, py)]
            spec_in_bounds(pw as int, ph as int, px, py) ==> if spec_line_covers(
                x1 as int,
                y1 as int,
                x2 as int,
                y2 as int,
                t as int,
                px,
                py,
            ) {
                spec_pixel_is(final(p)@, pw as int, px, py, rgb)
            } else {
                spec_pixel_same(final(p)@, old(p)@, pw as int, px, py)
            },
{
    let th: i64 = if t == 0 {
        1
    } else {
        t as i64
    };
    let half: i64 = th / 2;
    let dx: i64 = if x2 >= x1 {
        x2 - x1
    } else {
        x1 - x2
    };
    let dy: i64 = if y2 >= y1 {
        -(y2 - y1)
    } else {
        -(y1 - y2)
    };
    let sx: i64 = if x1 < x2 {
        1
    } else {
        -1
    };
    let sy: i64 = if y1 < y2 {
        1
    } else {
        -1
    };
    let mut err: i64 = dx + dy;
    let mut x: i64 = x1;
    let mut y: i64 = y1;
    let bound: i64 = dx - dy;
    let mut steps: i64 = 0;
    let ghost bx = min(x1 as int, x2 as int) - spec_th(t as int);
    let ghost by_ = min(y1 as int, y2 as int) - spec_th(t as int);
    let ghost bw = (max(x1 as int, x2 as int) - min(x1 as int, x2 as int)) + 2 * spec_th(t as int);
    let ghost bh = (max(y1 as int, y2 as int) - min(y1 as int, y2 as int)) + 2 * spec_th(t as int);
    let ghost full = spec_line_points(x1 as int, y1 as int, x2 as int, y2 as int);
    proof {
        assert(full == spec_bres_from(
            x1 as int,
            y1 as int,
            x2 as int,
            y2 as int,
            dx as int,
            dy as int,
            sx as int,
            sy as int,
            (dx + dy) as int,
            (dx - dy) as nat,
        ));
        assert(full =~= full.take(0) + full);
    }
    let mut done = false;
    while !done && steps <= bound
        invariant
            p@.len() == old(p)@.len(),
            spec_only_color(p@, old(p)@, pw as int, ph as int, rgb),
            spec_frame_rect(p@, old(p)@, pw as int, ph as int, bx, by_, bw, bh),
            min(x1 as int, x2 as int) <= x <= max(x1 as int, x2 as int),
            min(y1 as int, y2 as int) <= y <= max(y1 as int, y2 as int),
            2 * dy <= err <= 2 * dx,
            0 <= steps <= full.len(),
            th == spec_th(t as int),
            half == th / 2,
            done ==> steps > 0,
            steps == 0 ==> x == x1 && y == y1,
            steps > 0 ==> (spec_in_bounds(pw as int, ph as int, x1 as int, y1 as int)
                ==> spec_pixel_is(p@, pw as int, x1 as int, y1 as int, rgb)),
            (!done && steps <= bound) ==> full =~= full.take(steps as int) + spec_bres_from(
                x as int,
                y as int,
                x2 as int,
                y2 as int,
                dx as int,
                dy as int,
                sx as int,
                sy as int,
                err as int,
                (bound - steps) as nat,
            ),
            (done || steps > bound) ==> steps == full.len(),
            forall|px: int, py: int|
                #![trigger spec_pix(pw as int, px, py)]
                spec_in_bounds(pw as int, ph as int, px, py) ==> if (exists|i: int|
                    0 <= i < steps && spec_rect_covers(
                        (#[trigger] full[i]).0 - half,
                        full[i].1 - half,
                        th as int,
                        th as int,
                        px,
                        py,
                    )) {
                    spec_pixel_is(p@, pw as int, px, py, rgb)
                } else {
                    spec_pixel_same(p@, old(p)@, pw as int, px, py)
                },
        decreases bound - steps + 1,
    {
        let ghost ox = x as int;
        let ghost oy = y as int;
        let ghost oerr = err as int;
        let ghost osuffix = spec_bres_from(
            ox,
            oy,
            x2 as int,
            y2 as int,
            dx as int,
            dy as int,
            sx as int,
            sy as int,
            oerr,
            (bound - steps) as nat,
        );
        proof {
            assert(osuffix[0] == (ox, oy));
            assert(full[steps as int] == (ox, oy));
        }
        fill_rect_wide(p, pw, ph, x - half, y - half, th, th, rgb);
        proof {
            assert forall|px: int, py: int|
                #![trigger spec_pix(pw as int, px, py)]
                spec_in_bounds(pw as int, ph as int, px, py) implies ((if (exists|i: int|
                0 <= i < steps + 1 && spec_rect_covers(
                    (#[trigger] full[i]).0 - half,
                    full[i].1 - half,
                    th as int,
                    th as int,
                    px,
                    py,
                )) {
                spec_pixel_is(p@, pw as int, px, py, rgb)
            } else {
                spec_pixel_same(p@, old(p)@, pw as int, px, py)
            }) && (spec_pixel_is(p@, pw as int, px, py, rgb) || spec_pixel_same(
                p@,
                old(p)@,
                pw as int,
                px,
                py,
            )) && (!spec_rect_covers(bx, by_, bw, bh, px, py) ==> spec_pixel_same(
                p@,
                old(p)@,
                pw as int,
                px,
                py,
            ))) by {
                crate::buffer::lemma_pix_in_buf(pw as int, ph as int, px, py);
                if spec_rect_covers(ox - half, oy - half, th as int, th as int, px, py) {
                    assert(0 <= steps < steps + 1 && spec_rect_covers(
                        (full[steps as int]).0 - half,
                        full[steps as int].1 - half,
                        th as int,
                        th as int,
                        px,
                        py,
                    ));
                }
            }
        }
        if x == x2 && y == y2 {
            done = true;
            proof {
                assert(osuffix =~= seq![(ox, oy)]);
                assert(full.len() == steps + 1);
            }
        } else {
            let e2 = 2 * err;
            if e2 >= dy {
                err = err + dy;
                if x != x2 {
                    x = x + sx;
                }
            }
            if e2 <= dx {
                err = err + dx;
                if y != y2 {
                    y = y + sy;
                }
            }
            proof {
                if steps < bound {
                    assert(osuffix =~= seq![(ox, oy)] + spec_bres_from(
                        x as int,
                        y as int,
                        x2 as int,
                        y2 as int,
                        dx as int,
                        dy as int,
                        sx as int,
                        sy as int,
                        err as int,
                        (bound - (steps + 1)) as nat,
                    ));
                    assert(full.take(steps as int + 1) =~= full.take(steps as int).push((ox, oy)));
                    assert(full =~= full.take(steps as int + 1) + spec_bres_from(
                        x as int,
                        y as int,
                        x2 as int,
                        y2 as int,
                        dx as int,
                        dy as int,
                        sx as int,
                        sy as int,
                        err as int,
                        (bound - (steps + 1)) as nat,
                    ));
                } else {
                    assert(osuffix =~= seq![(ox, oy)]);
                    assert(full.len() == steps + 1);
                }
            }
        }
        steps = steps + 1;
    }
    proof {
        assert(steps == full.len());
        assert forall|px: int, py: int|
            #![trigger spec_pix(pw as int, px, py)]
            spec_in_bounds(pw as int, ph as int, px, py) implies (if spec_line_covers(
            x1 as int,
            y1 as int,
            x2 as int,
            y2 as int,
            t as int,
            px,
            py,
        ) {
            spec_pixel_is(p@, pw as int, px, py, rgb)
        } else {
            spec_pixel_same(p@, old(p)@, pw as int, px, py)
        }) by {
            crate::buffer::lemma_pix_in_buf(pw as int, ph as int, px, py);
        }
    }
}

/// Draws a segment given in the protocol's 32-bit coordinates.
pub fn draw_line(
    p: &mut Vec<u8>,
    pw: usize,
    ph: usize,
    x1: i32,
    y1: i32,
    x2: i32,
    y2: i32,
    rgb: (u8, u8, u8),
    t: u32,
)
    requires
        spec_buf_ok(old(p)@, pw as int, ph as int),
    ensures
        final(p)@.len() == old(p)@.len(),
        spec_only_color(final(p)@, old(p)@, pw as int, ph as int, rgb),
        spec_frame_rect(
            final(p)@,
            old(p)@,
            pw as int,
            ph as int,
            min(x1 as int, x2 as int) - spec_th(t as int),
            min(y1 as int, y2 as int) - spec_th(t as int),
            (max(x1 as int, x2 as int) - min(x1 as int, x2 as int)) + 2 * spec_th(t as int),
            (max(y1 as int, y2 as int) - min(y1 as int, y2 as int)) + 2 * spec_th(t as int),
        ),
        spec_in_bounds(pw as int, ph as int, x1 as int, y1 as int) ==> spec_pixel_is(
            final(p)@,
            pw as int,
            x1 as int,
            y1 as int,
            rgb,
        ),
        forall|px: int, py: int|
            #![trigger spec_pix(pw as int, px, py)]
            spec_in_bounds(pw as int, ph as int, px, py) ==> if spec_line_covers(
                x1 as int,
                y1 as int,
                x2 as int,
                y2 as int,
                t as int,
                px,
                py,
            ) {
                spec_pixel_is(final(p)@, pw as int, px, py, rgb)
            } else {
                spec_pixel_same(final(p)@, old(p)@, pw as int, px, py)
            },
{
    draw_line_wide(p, pw, ph, x1 as i64, y1 as i64, x2 as i64, y2 as i64, rgb, t);
}

/// The guarded stepping never leaves the box spanned by its two endpoints.
proof fn lemma_bres_from_box(
    x: int,
    y: int,
    x2: int,
    y2: int,
    dx: int,
    dy: int,
    sx: int,
    sy: int,
    err: int,
    fuel: nat,
    lox: int,
    hix: int,
    loy: int,
    hiy: int,
)
    requires
        lox <= x <= hix,
        loy <= y <= hiy,
        lox <= x2 <= hix,
        loy <= y2 <= hiy,
        sx == 1 || sx == -1,
        sy == 1 || sy == -1,
        sx == 1 ==> x <= x2,
        sx == -1 ==> x >= x2,
        sy == 1 ==> y <= y2,
        sy == -1 ==> y >= y2,
    ensures
        forall|i: int|
            0 <= i < spec_bres_from(x, y, x2, y2, dx, dy, sx, sy, err, fuel).len() ==> {
                let pt = #[trigger] spec_bres_from(x, y, x2, y2, dx, dy, sx, sy, err, fuel)[i];
                lox <= pt.0 <= hix && loy <= pt.1 <= hiy
            },
    decreases fuel,
{
    if !((x == x2 && y == y2) || fuel == 0) {
        let e2 = 2 * err;
        let xn = if e2 >= dy && x != x2 {
            x + sx
        } else {
            x
        };
        let err1 = if e2 >= dy {
            err + dy
        } else {
            err
        };
        let yn = if e2 <= dx && y != y2 {
            y + sy
        } else {
            y
        };
        let err2 = if e2 <= dx {
            err1 + dx
        } else {
            err1
        };
        lemma_bres_from_box(
            xn,
            yn,
            x2,
            y2,
            dx,
            dy,
            sx,
            sy,
            err2,
            (fuel - 1) as nat,
            lox,
            hix,
            loy,
            hiy,
        );
        let cur = spec_bres_from(x, y, x2, y2, dx, dy, sx, sy, err, fuel);
        let rest = spec_bres_from(xn, yn, x2, y2, dx, dy, sx, sy, err2, (fuel - 1) as nat);
        assert(cur =~= seq![(x, y)] + rest);
        assert forall|i: int| 0 <= i < cur.len() implies {
            let pt = #[trigger] cur[i];
            lox <= pt.0 <= hix && loy <= pt.1 <= hiy
        } by {
            if i == 0 {
                assert(cur[0] == (x, y));
            } else {
                assert(cur[i] == rest[i - 1]);
            }
        }
    }
}

/// Every stepped point of a segment lies in the box its endpoints span.
pub proof fn lemma_line_points_in_box(x1: int, y1: int, x2: int, y2: int)
    ensures
        forall|i: int|
            0 <= i < spec_line_points(x1, y1, x2, y2).len() ==> {
                let pt = #[trigger] spec_line_points(x1, y1, x2, y2)[i];
                min(x1, x2) <= pt.0 <= max(x1, x2) && min(y1, y2) <= pt.1 <= max(y1, y2)
            },
{
    let dx = abs(x2 - x1) as int;
    let dy = -(abs(y2 - y1) as int);
    let sx: int = if x1 < x2 {
        1
    } else {
        -1
    };
    let sy: int = if y1 < y2 {
        1
    } else {
        -1
    };
    lemma_bres_from_box(
        x1,
        y1,
        x2,
        y2,
        dx,
        dy,
        sx,
        sy,
        dx + dy,
        (dx - dy) as nat,
        min(x1, x2),
        max(x1, x2),
        min(y1, y2),
        max(y1, y2),
    );
}

/// Whether some consecutive-pair segment of the open polyline covers
/// `(px, py)`.
pub open spec fn spec_polyline_covers(pts: Seq<Point>, t: int, px: int, py: int) -> bool {
    exists|i: int|
        0 <= i < pts.len() - 1 && spec_line_covers(
            (#[trigger] pts[i]).x as int,
            pts[i].y as int,
            pts[i + 1].x as int,
            pts[i + 1].y as int,
            t,
            px,
            py,
        )
}

/// Whether the closed polygon outline — the open polyline plus the closing
/// segment from the last point back to the first — covers `(px, py)`.
pub open spec fn spec_closed_polyline_covers(pts: Seq<Point>, t: int, px: int, py: int) -> bool {
    ||| spec_polyline_covers(pts, t, px, py)
    ||| (pts.len() >= 2 && spec_line_covers(
        pts[pts.len() - 1].x as int,
        pts[pts.len() - 1].y as int,
        pts[0].x as int,
        pts[0].y as int,
        t,
        px,
        py,
    ))
}

/// Whether inset step `i` of the rectangle outline covers `(px, py)`: the
/// top and bottom edge lines while the insets have not crossed vertically,
/// and the left and right edge lines while they have not crossed
/// horizontally.
pub open spec fn spec_inset_covers(
    x: int,
    y: int,
    w: int,
    h: int,
    i: int,
    px: int,
    py: int,
) -> bool {
    ||| (2 * i < h && (spec_line_covers(x, y + i, x + w - 1, y + i, 1, px, py)
        || spec_line_covers(x, y + h - 1 - i, x + w - 1, y + h - 1 - i, 1, px, py)))
    ||| (2 * i < w && (spec_line_covers(x + i, y, x + i, y + h - 1, 1, px, py)
        || spec_line_covers(x + w - 1 - i, y, x + w - 1 - i, y + h - 1, 1, px, py)))
}

/// Whether the rectangle outline of thickness `t` covers `(px, py)`.
pub open spec fn spec_rect_outline_covers(
    x: int,
    y: int,
    w: int,
    h: int,
    t: int,
    px: int,
    py: int,
) -> bool {
    w > 0 && h > 0 && (exists|i: int| 0 <= i < t && spec_inset_covers(x, y, w, h, i, px, py))
}

/// Strokes the rectangle's outline as four edge lines per thickness step,
/// inset so the outline stays within the declared bounds: exactly the
/// pixels of `spec_rect_outline_covers` are painted, all of them inside the
/// rectangle, and every other pixel keeps its bytes.
#[verifier::loop_isolation(false)]
#[verifier::rlimit(100)]
pub fn draw_rect_outline(
    p: &mut Vec<u8>,
    pw: usize,
    ph: usize,
    x: i32,
    y: i32,
    w: u32,
    h: u32,
    rgb: (u8, u8, u8),
    t: u32,
)
    requires
        spec_buf_ok(old(p)@, pw as int, ph as int),
    ensures
        final(p)@.len() == old(p)@.len(),
        spec_only_color(final(p)@, old(p)@, pw as int, ph as int, rgb),
        spec_frame_rect(final(p)@, old(p)@, pw as int, ph as int, x as int, y as int, w as int, h as int),
        forall|px: int, py: int|
            #![trigger spec_pix(pw as int, px, py)]
            spec_in_bounds(pw as int, ph as int, px, py) ==> if spec_rect_outline_covers(
                x as int,
                y as int,
                w as int,
                h as int,
                t as int,
                px,
                py,
            ) {
                spec_pixel_is(final(p)@, pw as int, px, py, rgb)
            } else {
                spec_pixel_same(final(p)@, old(p)@, pw as int, px, py)
            },
        t >= 1 && w >= 1 && h >= 1 && spec_in_bounds(pw as int, ph as int, x as int, y as int)
            ==> spec_pixel_is(final(p)@, pw as int, x as int, y as int, rgb),
{
    if w == 0 || h == 0 {
        return ;
    }
    let x64 = x as i64;
    let y64 = y as i64;
    let w64 = w as i64;
    let h64 = h as i64;
    let mut i: i64 = 0;
    while i < t as i64
        invariant
            0 <= i <= t as i64,
            w >= 1,
            h >= 1,
            p@.len() == old(p)@.len(),
            spec_only_color(p@, old(p)@, pw as int, ph as int, rgb),
            forall|px: int, py: int|
                #![trigger spec_pix(pw as int, px, py)]
                spec_in_bounds(pw as int, ph as int, px, py) ==> if (exists|k: int|
                    0 <= k < i && spec_inset_covers(
                        x as int,
                        y as int,
                        w as int,
                        h as int,
                        k,
                        px,
                        py,
                    )) {
                    spec_pixel_is(p@, pw as int, px, py, rgb)
                } else {
                    spec_pixel_same(p@, old(p)@, pw as int, px, py)
                },
        decreases t as i64 - i,
    {
        if 2 * i < h64 {
            draw_line_wide(p, pw, ph, x64, y64 + i, x64 + w64 - 1, y64 + i, rgb, 1);
            draw_line_wide(p, pw, ph, x64, y64 + h64 - 1 - i, x64 + w64 - 1, y64 + h64 - 1 - i, rgb, 1);
        }
        if 2 * i < w64 {
            draw_line_wide(p, pw, ph, x64 + i, y64, x64 + i, y64 + h64 - 1, rgb, 1);
            draw_line_wide(p, pw, ph, x64 + w64 - 1 - i, y64, x64 + w64 - 1 - i, y64 + h64 - 1, rgb, 1);
        }
        proof {
            assert forall|px: int, py: int|
                #![trigger spec_pix(pw as int, px, py)]
                spec_in_bounds(pw as int, ph as int, px, py) implies (if (exists|k: int|
                0 <= k < i + 1 && spec_inset_covers(x as int, y as int, w as int, h as int, k, px, py))
                 {
                spec_pixel_is(p@, pw as int, px, py, rgb)
            } else {
                spec_pixel_same(p@, old(p)@, pw as int, px, py)
            }) by {
                crate::buffer::lemma_pix_in_buf(pw as int, ph as int, px, py);
                if spec_inset_covers(x as int, y as int, w as int, h as int, i as int, px, py) {
                    assert(0 <= (i as int) && (i as int) < i + 1 && spec_inset_covers(
                        x as int,
                        y as int,
                        w as int,
                        h as int,
                        i as int,
                        px,
                        py,
                    ));
                }
            }
        }
        i = i + 1;
    }
    proof {
        assert forall|px: int, py: int|
            #![trigger spec_pix(pw as int, px, py)]
            spec_in_bounds(pw as int, ph as int, px, py) implies (if spec_rect_outline_covers(
            x as int,
            y as int,
            w as int,
            h as int,
            t as int,
            px,
            py,
        ) {
            spec_pixel_is(p@, pw as int, px, py, rgb)
        } else {
            spec_pixel_same(p@, old(p)@, pw as int, px, py)
        }) by {
            crate::buffer::lemma_pix_in_buf(pw as int, ph as int, px, py);
        }
        assert forall|px: int, py: int|
            spec_rect_outline_covers(x as int, y as int, w as int, h as int, t as int, px, py)
            implies spec_rect_covers(x as int, y as int, w as int, h as int, px, py) by {
            let k = choose|k: int|
                0 <= k < t && spec_inset_covers(x as int, y as int, w as int, h as int, k, px, py);
            lemma_line_points_in_box(x as int, y as int + k, x + w - 1, y as int + k);
            lemma_line_points_in_box(x as int, y + h - 1 - k, x + w - 1, y + h - 1 - k);
            lemma_line_points_in_box(x as int + k, y as int, x as int + k, y + h - 1);
            lemma_line_points_in_box(x + w - 1 - k, y as int, x + w - 1 - k, y + h - 1);
        }
        if t >= 1 && w >= 1 && h >= 1 {
            assert(spec_line_points(x as int, y as int, x as int + w - 1, y as int)[0] == (
            x as int,
            y as int,
            ));
            assert(spec_inset_covers(x as int, y as int, w as int, h as int, 0, x as int, y as int));
        }
    }
}

/// Smallest x coordinate among the points (zero for an empty list).
pub open spec fn spec_pts_min_x(pts: Seq<Point>) -> int
    decreases pts.len(),
{
    if pts.len() == 0 {
        0
    } else if pts.len() == 1 {
        pts[0].x as int
    } else {
        min(spec_pts_min_x(pts.drop_last()), pts.last().x as int)
    }
}

/// Largest x coordinate among the points (zero for an empty list).
pub open spec fn spec_pts_max_x(pts: Seq<Point>) -> int
    decreases pts.len(),
{
    if pts.len() == 0 {
        0
    } else if pts.len() == 1 {
        pts[0].x as int
    } else {
        max(spec_pts_max_x(pts.drop_last()), pts.last().x as int)
    }
}

/// Smallest y coordinate among the points (zero for an empty list).
pub open spec fn spec_pts_min_y(pts: Seq<Point>) -> int
    decreases pts.len(),
{
    if pts.len() == 0 {
        0
    } else if pts.len() == 1 {
        pts[0].y as int
    } else {
        min(spec_pts_min_y(pts.drop_last()), pts.last().y as int)
    }
}

/// Largest y coordinate among the points (zero for an empty list).
pub open spec fn spec_pts_max_y(pts: Seq<Point>) -> int
    decreases pts.len(),
{
    if pts.len() == 0 {
        0
    } else if pts.len() == 1 {
        pts[0].y as int
    } else {
        max(spec_pts_max_y(pts.drop_last()), pts.last().y as int)
    }
}

/// Every point lies within the list's bounding box.
pub proof fn lemma_pts_bounds(pts: Seq<Point>, i: int)
    requires
        0 <= i < pts.len(),
    ensures
        spec_pts_min_x(pts) <= pts[i].x <= spec_pts_max_x(pts),
        spec_pts_min_y(pts) <= pts[i].y <= spec_pts_max_y(pts),
    decreases pts.len(),
{
    if pts.len() > 1 && i < pts.len() - 1 {
        lemma_pts_bounds(pts.drop_last(), i);
    }
}

/// The bounding box of a vertex list inflated by the stroke thickness: the
/// region a polyline stroke may touch.
pub open spec fn spec_pts_region(pts: Seq<Point>, t: int) -> (int, int, int, int) {
    (
        spec_pts_min_x(pts) - 2 * spec_th(t),
        spec_pts_min_y(pts) - 2 * spec_th(t),
        (spec_pts_max_x(pts) - spec_pts_min_x(pts)) + 4 * spec_th(t),
        (spec_pts_max_y(pts) - spec_pts_min_y(pts)) + 4 * spec_th(t),
    )
}

/// Strokes the open polyline through the points, one segment per
/// consecutive pair: exactly the pixels of `spec_polyline_covers` are
/// painted; every other pixel — in particular the whole buffer when fewer
/// than two points are given — keeps its bytes.
#[verifier::loop_isolation(false)]
pub fn draw_polyline(
    p: &mut Vec<u8>,
    pw: usize,
    ph: usize,
    points: &Vec<Point>,
    rgb: (u8, u8, u8),
    t: u32,
)
    requires
        spec_buf_ok(old(p)@, pw as int, ph as int),
    ensures
        final(p)@.len() == old(p)@.len(),
        spec_only_color(final(p)@, old(p)@, pw as int, ph as int, rgb),
        spec_frame_rect(
            final(p)@,
            old(p)@,
            pw as int,
            ph as int,
            spec_pts_region(points@, t as int).0,
            spec_pts_region(points@, t as int).1,
            spec_pts_region(points@, t as int).2,
            spec_pts_region(points@, t as int).3,
        ),
        points@.len() >= 2 && spec_in_bounds(
            pw as int,
            ph as int,
            points@[0].x as int,
            points@[0].y as int,
        ) ==> spec_pixel_is(final(p)@, pw as int, points@[0].x as int, points@[0].y as int, rgb),
        forall|px: int, py: int|
            #![trigger spec_pix(pw as int, px, py)]
            spec_in_bounds(pw as int, ph as int, px, py) ==> if spec_polyline_covers(
                points@,
                t as int,
                px,
                py,
            ) {
                spec_pixel_is(final(p)@, pw as int, px, py, rgb)
            } else {
                spec_pixel_same(final(p)@, old(p)@, pw as int, px, py)
            },
{
    let ghost reg = spec_pts_region(points@, t as int);
    if points.len() < 2 {
        return ;
    }
    let mut k: usize = 0;
    while k < points.len() - 1
        invariant
            points.len() >= 2,
            0 <= k < points.len(),
            p@.len() == old(p)@.len(),
            spec_only_color(p@, old(p)@, pw as int, ph as int, rgb),
            spec_frame_rect(p@, old(p)@, pw as int, ph as int, reg.0, reg.1, reg.2, reg.3),
            k > 0 ==> (spec_in_bounds(
                pw as int,
                ph as int,
                points@[0].x as int,
                points@[0].y as int,
            ) ==> spec_pixel_is(p@, pw as int, points@[0].x as int, points@[0].y as int, rgb)),
            forall|px: int, py: int|
                #![trigger spec_pix(pw as int, px, py)]
                spec_in_bounds(pw as int, ph as int, px, py) ==> if (exists|i: int|
                    0 <= i < k && spec_line_covers(
                        (#[trigger] points@[i]).x as int,
                        points@[i].y as int,
                        points@[i + 1].x as int,
                        points@[i + 1].y as int,
                        t as int,
                        px,
                        py,
                    )) {
                    spec_pixel_is(p@, pw as int, px, py, rgb)
                } else {
                    spec_pixel_same(p@, old(p)@, pw as int, px, py)
                },
        decreases points.len() - k,
    {
        proof {
            lemma_pts_bounds(points@, k as int);
            lemma_pts_bounds(points@, k as int + 1);
        }
        let a = &points[k];
        let b = &points[k + 1];
        draw_line(p, pw, ph, a.x, a.y, b.x, b.y, rgb, t);
        proof {
            assert forall|px: int, py: int|
                #![trigger spec_pix(pw as int, px, py)]
                spec_in_bounds(pw as int, ph as int, px, py) implies (if (exists|i: int|
                0 <= i < k + 1 && spec_line_covers(
                    (#[trigger] points@[i]).x as int,
                    points@[i].y as int,
                    points@[i + 1].x as int,
                    points@[i + 1].y as int,
                    t as int,
                    px,
                    py,
                )) {
                spec_pixel_is(p@, pw as int, px, py, rgb)
            } else {
                spec_pixel_same(p@, old(p)@, pw as int, px, py)
            }) by {
                crate::buffer::lemma_pix_in_buf(pw as int, ph as int, px, py);
                if spec_line_covers(
                    points@[k as int].x as int,
                    points@[k as int].y as int,
                    points@[k as int + 1].x as int,
                    points@[k as int + 1].y as int,
                    t as int,
                    px,
                    py,
                ) {
                    assert(0 <= (k as int) && (k as int) < k + 1 && spec_line_covers(
                        (points@[k as int]).x as int,
                        points@[k as int].y as int,
                        points@[k as int + 1].x as int,
                        points@[k as int + 1].y as int,
                        t as int,
                        px,
                        py,
                    ));
                }
            }
        }
        k = k + 1;
    }
    proof {
        assert forall|px: int, py: int|
            #![trigger spec_pix(pw as int, px, py)]
            spec_in_bounds(pw as int, ph as int, px, py) implies (if spec_polyline_covers(
            points@,
            t as int,
            px,
            py,
        ) {
            spec_pixel_is(p@, pw as int, px, py, rgb)
        } else {
            spec_pixel_same(p@, old(p)@, pw as int, px, py)
        }) by {
            crate::buffer::lemma_pix_in_buf(pw as int, ph as int, px, py);
        }
    }
}

/// Strokes the closed polygon outline: the open polyline plus the segment
/// from the last point back to the first — exactly the pixels of
/// `spec_closed_polyline_covers` are painted, and fewer than two points
/// leave the buffer untouched.
pub fn draw_polyline_closed(
    p: &mut Vec<u8>,
    pw: usize,
    ph: usize,
    points: &Vec<Point>,
    rgb: (u8, u8, u8),
    t: u32,
)
    requires
        spec_buf_ok(old(p)@, pw as int, ph as int),
    ensures
        final(p)@.len() == old(p)@.len(),
        spec_only_color(final(p)@, old(p)@, pw as int, ph as int, rgb),
        spec_frame_rect(
            final(p)@,
            old(p)@,
            pw as int,
            ph as int,
            spec_pts_region(points@, t as int).0,
            spec_pts_region(points@, t as int).1,
            spec_pts_region(points@, t as int).2,
            spec_pts_region(points@, t as int).3,
        ),
        forall|px: int, py: int|
            #![trigger spec_pix(pw as int, px, py)]
            spec_in_bounds(pw as int, ph as int, px, py) ==> if spec_closed_polyline_covers(
                points@,
                t as int,
                px,
                py,
            ) {
                spec_pixel_is(final(p)@, pw as int, px, py, rgb)
            } else {
                spec_pixel_same(final(p)@, old(p)@, pw as int, px, py)
            },
{
    if points.len() < 2 {
        return ;
    }
    draw_polyline(p, pw, ph, points, rgb, t);
    proof {
        lemma_pts_bounds(points@, 0);
        lemma_pts_bounds(points@, points@.len() - 1);
    }
    let ghost mid = p@;
    let first = &points[0];
    let last = &points[points.len() - 1];
    draw_line(p, pw, ph, last.x, last.y, first.x, first.y, rgb, t);
    proof {
        assert forall|px: int, py: int|
            #![trigger spec_pix(pw as int, px, py)]
            spec_in_bounds(pw as int, ph as int, px, py) implies (if spec_closed_polyline_covers(
            points@,
            t as int,
            px,
            py,
        ) {
            spec_pixel_is(p@, pw as int, px, py, rgb)
        } else {
            spec_pixel_same(p@, old(p)@, pw as int, px, py)
        }) by {
            crate::buffer::lemma_pix_in_buf(pw as int, ph as int, px, py);
        }
    }
}

} // verus!
